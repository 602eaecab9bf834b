use vstd::prelude::*;
use crate::grid::{GridCoord, MapGrid, lemma_index_in_range, lemma_index_injective};

verus! {

/// Two cells share an edge (4-connectivity).
pub open spec fn adjacent(a: GridCoord, b: GridCoord) -> bool {
    ||| a.x == b.x && (a.y - b.y == 1 || b.y - a.y == 1)
    ||| a.y == b.y && (a.x - b.x == 1 || b.x - a.x == 1)
}

/// A registered, walkable cell.
pub open spec fn passable(grid: MapGrid, c: GridCoord) -> bool {
    match grid.slot(c) {
        Some(s) => s.1.walkable,
        None => false,
    }
}

/// `path` leads from `from` to `to` one edge at a time, and every cell of it,
/// the start included, is on the map, registered and walkable.
pub open spec fn is_path(grid: MapGrid, from: GridCoord, to: GridCoord, path: Seq<GridCoord>) -> bool {
    &&& path.len() >= 1
    &&& path[0] == from
    &&& path[path.len() - 1] == to
    &&& forall|i: int| 0 <= i < path.len() ==> passable(grid, #[trigger] path[i])
    &&& forall|i: int| 1 <= i < path.len() ==> adjacent(path[i - 1], #[trigger] path[i])
}

pub open spec fn path_exists(grid: MapGrid, from: GridCoord, to: GridCoord) -> bool {
    exists|p: Seq<GridCoord>| is_path(grid, from, to, p)
}

/// Manhattan distance between two cells.
pub open spec fn manhattan(a: GridCoord, b: GridCoord) -> int {
    let dx = a.x - b.x;
    let dy = a.y - b.y;
    (if dx < 0 { -dx } else { dx }) + (if dy < 0 { -dy } else { dy })
}

/// `a` is at least as good a next step towards `to` as `b`: nearer in
/// Manhattan distance, then smaller `x`, then smaller `y`.
pub open spec fn key_le(a: GridCoord, b: GridCoord, to: GridCoord) -> bool {
    ||| manhattan(a, to) < manhattan(b, to)
    ||| manhattan(a, to) == manhattan(b, to) && (a.x < b.x || (a.x == b.x && a.y <= b.y))
}

/// A walkable path leads from `c` to `to` in at most `k` steps.
pub open spec fn reaches_within(grid: MapGrid, c: GridCoord, to: GridCoord, k: int) -> bool {
    exists|q: Seq<GridCoord>| is_path(grid, c, to, q) && q.len() <= k + 1
}

/// Stepping from `a` to `b` with `left` steps still to go after it: every
/// walkable neighbour of `a` that could also reach `to` in `left` steps is a
/// next step no better than `b`.
pub open spec fn best_step(grid: MapGrid, to: GridCoord, a: GridCoord, b: GridCoord, left: int) -> bool {
    forall|n: GridCoord|
        adjacent(a, n) && passable(grid, n) && #[trigger] reaches_within(grid, n, to, left) ==> key_le(b, n, to)
}

/// Every step of `p`, a path of `total` cells, is the best one available.
pub open spec fn best_steps(grid: MapGrid, to: GridCoord, p: Seq<GridCoord>, total: int) -> bool {
    forall|i: int| 0 <= i < p.len() - 1 ==> best_step(grid, to, #[trigger] p[i], p[i + 1], total - 2 - i)
}

/// Number of `true` entries.
pub open spec fn count_true(s: Seq<bool>) -> nat
    decreases s.len(),
{
    if s.len() == 0 {
        0
    } else {
        count_true(s.drop_last()) + if s.last() { 1nat } else { 0nat }
    }
}

proof fn lemma_count_true_bound(s: Seq<bool>)
    ensures
        count_true(s) <= s.len(),
    decreases s.len(),
{
    if s.len() > 0 {
        lemma_count_true_bound(s.drop_last());
    }
}

proof fn lemma_count_true_set(s: Seq<bool>, i: int)
    requires
        0 <= i < s.len(),
        !s[i],
    ensures
        count_true(s.update(i, true)) == count_true(s) + 1,
    decreases s.len(),
{
    let t = s.update(i, true);
    if i == s.len() - 1 {
        assert(t.drop_last() =~= s.drop_last());
    } else {
        assert(t.drop_last() =~= s.drop_last().update(i, true));
        lemma_count_true_set(s.drop_last(), i);
    }
}

/// A cell the search may enter: on the map, registered and walkable.
spec fn admissible(grid: MapGrid, c: GridCoord) -> bool {
    grid.spec_in_bounds(c) && passable(grid, c)
}

/// Breadth-first search state, rooted at the target.
struct Search {
    visited: Vec<bool>,
    dist: Vec<usize>,
    parent: Vec<GridCoord>,
    queue: Vec<GridCoord>,
}

impl Search {
    spec fn seen(self, grid: MapGrid, c: GridCoord) -> bool {
        self.visited@[grid.index_of(c)]
    }

    spec fn d(self, grid: MapGrid, c: GridCoord) -> int {
        self.dist@[grid.index_of(c)] as int
    }

    spec fn par(self, grid: MapGrid, c: GridCoord) -> GridCoord {
        self.parent@[grid.index_of(c)]
    }

    spec fn queue_ok(self, grid: MapGrid) -> bool {
        forall|j: int|
            0 <= j < self.queue@.len() ==> {
                &&& grid.spec_in_bounds(#[trigger] self.queue@[j])
                &&& self.seen(grid, self.queue@[j])
                &&& self.d(grid, self.queue@[j]) <= j
            }
    }

    spec fn cell_ok(self, grid: MapGrid, to: GridCoord, c: GridCoord) -> bool {
        &&& admissible(grid, c)
        &&& exists|j: int| 0 <= j < self.queue@.len() && self.queue@[j] == c
        &&& c != to ==> {
            let p = self.par(grid, c);
            &&& grid.spec_in_bounds(p)
            &&& self.seen(grid, p)
            &&& adjacent(p, c)
            &&& self.d(grid, p) + 1 == self.d(grid, c)
        }
    }

    spec fn cells_ok(self, grid: MapGrid, to: GridCoord) -> bool {
        forall|c: GridCoord|
            grid.spec_in_bounds(c) && #[trigger] self.seen(grid, c) ==> self.cell_ok(grid, to, c)
    }

    #[verifier::opaque]
    spec fn inv(self, grid: MapGrid, to: GridCoord) -> bool {
        let n = grid.slots().len();
        &&& grid.wf()
        &&& self.visited@.len() == n
        &&& self.dist@.len() == n
        &&& self.parent@.len() == n
        &&& count_true(self.visited@) == self.queue@.len()
        &&& self.queue@.len() >= 1
        &&& self.queue@[0] == to
        &&& grid.spec_in_bounds(to)
        &&& self.seen(grid, to)
        &&& self.d(grid, to) == 0
        &&& self.queue_ok(grid)
        &&& self.cells_ok(grid, to)
    }

    /// `next` is `self` after entering `m` from `cur`.
    spec fn stepped(self, next: Search, grid: MapGrid, cur: GridCoord, m: GridCoord) -> bool {
        let i = grid.index_of(m);
        &&& next.visited@ == self.visited@.update(i, true)
        &&& next.dist@ == self.dist@.update(i, (self.d(grid, cur) + 1) as usize)
        &&& next.parent@ == self.parent@.update(i, cur)
        &&& next.queue@ == self.queue@.push(m)
    }

    /// Every admissible neighbour of a cell taken from the queue is seen.
    spec fn closed_upto(self, grid: MapGrid, head: int) -> bool {
        forall|j: int, m: GridCoord|
            0 <= j < head && adjacent(#[trigger] self.queue@[j], m) && #[trigger] admissible(grid, m)
                ==> self.seen(grid, m) && self.d(grid, m) <= self.d(grid, self.queue@[j]) + 1
    }

    /// Distances never decrease along the queue, and those not yet taken off
    /// it exceed the one at `head` by at most one.
    spec fn frontier_ok(self, grid: MapGrid, head: int) -> bool {
        &&& forall|i: int, j: int|
            0 <= i <= j < self.queue@.len() ==> self.d(grid, #[trigger] self.queue@[i]) <= self.d(grid, #[trigger] self.queue@[j])
        &&& head < self.queue@.len() ==> forall|j: int|
            head <= j < self.queue@.len() ==> self.d(grid, #[trigger] self.queue@[j]) <= self.d(grid, self.queue@[head]) + 1
    }

    spec fn neighbor_seen(self, grid: MapGrid, cur: GridCoord, k: int) -> bool {
        match spec_neighbor(grid, cur, k) {
            Some(m) => admissible(grid, m) ==> self.seen(grid, m) && self.d(grid, m) <= self.d(grid, cur) + 1,
            None => true,
        }
    }

    spec fn grows_from(self, prev: Search, grid: MapGrid) -> bool {
        &&& self.queue@.len() >= prev.queue@.len()
        &&& forall|j: int| 0 <= j < prev.queue@.len() ==> self.queue@[j] == prev.queue@[j]
        &&& forall|c: GridCoord|
            grid.spec_in_bounds(c) && #[trigger] prev.seen(grid, c) ==> self.seen(grid, c) && self.d(grid, c) == prev.d(grid, c)
    }

    /// Enters `m`, a neighbour of the cell at `head`, if it is admissible and new.
    fn visit(
        &mut self,
        grid: &MapGrid,
        to: GridCoord,
        Ghost(head): Ghost<int>,
        cur: GridCoord,
        m: GridCoord,
    )
        requires
            old(self).inv(*grid, to),
            old(self).closed_upto(*grid, head),
            old(self).frontier_ok(*grid, head),
            0 <= head < old(self).queue@.len(),
            old(self).queue@[head] == cur,
            grid.spec_in_bounds(m),
            adjacent(cur, m),
        ensures
            final(self).inv(*grid, to),
            final(self).closed_upto(*grid, head),
            final(self).frontier_ok(*grid, head),
            final(self).grows_from(*old(self), *grid),
            admissible(*grid, m) ==> final(self).seen(*grid, m)
                && final(self).d(*grid, m) <= final(self).d(*grid, cur) + 1,
    {
        let ghost g = *grid;
        let ghost prev = *self;
        proof {
            reveal(Search::inv);
        }
        let i = grid.index(m);
        if self.visited[i] {
            proof {
                lemma_seen_near(prev, g, to, head, m);
            }
            return;
        }
        let walkable = match grid.get_cell(m) {
            Some(cell) => cell.walkable,
            None => false,
        };
        if !walkable {
            return;
        }
        let ci = grid.index(cur);
        let queued = self.queue.len();
        proof {
            reveal(Search::inv);
            lemma_count_true_bound(prev.visited@);
            assert(prev.d(g, cur) <= head);
            assert(head < queued);
        }
        let di = self.dist[ci] + 1;
        self.visited.set(i, true);
        self.dist.set(i, di);
        self.parent.set(i, cur);
        self.queue.push(m);
        proof {
            lemma_step(prev, *self, g, to, head, cur, m);
        }
    }
}


impl Search {
    /// The empty search rooted at `to`: only `to` is seen.
    fn start(grid: &MapGrid, to: GridCoord) -> (r: Search)
        requires
            grid.wf(),
            admissible(*grid, to),
        ensures
            r.inv(*grid, to),
            r.closed_upto(*grid, 0),
            r.frontier_ok(*grid, 0),
    {
        let ghost g = *grid;
        let n = grid.cells.len();
        let mut visited: Vec<bool> = Vec::new();
        let mut dist: Vec<usize> = Vec::new();
        let mut parent: Vec<GridCoord> = Vec::new();
        let mut i: usize = 0;
        while i < n
            invariant
                i <= n,
                n == g.slots().len(),
                visited@.len() == i,
                dist@.len() == i,
                parent@.len() == i,
                count_true(visited@) == 0,
                forall|j: int| 0 <= j < i ==> !#[trigger] visited@[j],
                forall|j: int| 0 <= j < i ==> #[trigger] dist@[j] == 0,
            decreases n - i,
        {
            proof {
                assert(visited@.push(false).drop_last() =~= visited@);
            }
            visited.push(false);
            dist.push(0);
            parent.push(to);
            i += 1;
        }
        let t = grid.index(to);
        proof {
            lemma_count_true_set(visited@, t as int);
            assert(dist@[t as int] == 0);
        }
        visited.set(t, true);
        let mut queue: Vec<GridCoord> = Vec::new();
        queue.push(to);
        let r = Search { visited, dist, parent, queue };
        proof {
            reveal(Search::inv);
            assert forall|c: GridCoord| g.spec_in_bounds(c) && #[trigger] r.seen(g, c) implies r.cell_ok(g, to, c) by {
                if c != to {
                    lemma_index_in_range(g.width as int, g.height as int, c.x as int, c.y as int);
                    lemma_index_injective(g.width as int, g.height as int, c, to);
                }
                assert(r.queue@[0] == c);
            }
            assert(r.queue_ok(g));
        }
        r
    }

    /// Takes the cell at `head` off the queue: enters each of its neighbours.
    fn expand(&mut self, grid: &MapGrid, to: GridCoord, head: usize)
        requires
            old(self).inv(*grid, to),
            old(self).closed_upto(*grid, head as int),
            old(self).frontier_ok(*grid, head as int),
            head < old(self).queue@.len(),
        ensures
            final(self).inv(*grid, to),
            final(self).closed_upto(*grid, head + 1),
            final(self).frontier_ok(*grid, head + 1),
            final(self).grows_from(*old(self), *grid),
    {
        let ghost g = *grid;
        let ghost s0 = *self;
        let cur = self.queue[head];
        proof {
            lemma_inv_queue(s0, g, to, head as int);
        }
        let mut k: usize = 0;
        while k < 4
            invariant
                g == *grid,
                g.wf(),
                k <= 4,
                head < s0.queue@.len(),
                s0.queue@[head as int] == cur,
                g.spec_in_bounds(cur),
                self.inv(g, to),
                self.closed_upto(g, head as int),
                self.frontier_ok(g, head as int),
                self.grows_from(s0, g),
                s0.seen(g, cur),
                self.queue@[head as int] == cur,
                forall|kk: int| 0 <= kk < k ==> #[trigger] self.neighbor_seen(g, cur, kk),
            decreases 4 - k,
        {
            let ghost before = *self;
            match neighbor(grid, cur, k) {
                Some(m) => {
                    self.visit(grid, to, Ghost(head as int), cur, m);
                },
                None => {},
            }
            proof {
                lemma_grows_trans(s0, before, *self, g);
                assert forall|kk: int| 0 <= kk < k + 1 implies #[trigger] self.neighbor_seen(g, cur, kk) by {
                    if kk < k {
                        assert(before.neighbor_seen(g, cur, kk));
                        if let Some(m) = spec_neighbor(g, cur, kk) {
                            if admissible(g, m) {
                                assert(before.seen(g, m));
                                assert(s0.seen(g, cur));
                            }
                        }
                    }
                }
            }
            k += 1;
        }
        proof {
            let s4 = *self;
            assert forall|jj: int, mm: GridCoord|
                0 <= jj < head + 1 && adjacent(#[trigger] s4.queue@[jj], mm) && #[trigger] admissible(g, mm)
                implies s4.seen(g, mm) && s4.d(g, mm) <= s4.d(g, s4.queue@[jj]) + 1 by {
                if jj < head {
                } else {
                    assert(s4.queue@[jj] == cur);
                    lemma_neighbor_complete(g, cur, mm);
                    let kk = choose|kk: int| 0 <= kk < 4 && #[trigger] spec_neighbor(g, cur, kk) == Some(mm);
                    assert(s4.neighbor_seen(g, cur, kk));
                }
            }
            if head + 1 < s4.queue@.len() {
                assert forall|j: int| head + 1 <= j < s4.queue@.len() implies
                    s4.d(g, #[trigger] s4.queue@[j]) <= s4.d(g, s4.queue@[head + 1]) + 1 by {
                    assert(s4.d(g, s4.queue@[j]) <= s4.d(g, s4.queue@[head as int]) + 1);
                    assert(s4.d(g, s4.queue@[head as int]) <= s4.d(g, s4.queue@[head + 1]));
                }
            }
        }
    }

    /// Runs the search until the queue is drained.
    fn run(&mut self, grid: &MapGrid, to: GridCoord)
        requires
            old(self).inv(*grid, to),
            old(self).closed_upto(*grid, 0),
            old(self).frontier_ok(*grid, 0),
        ensures
            final(self).inv(*grid, to),
            final(self).closed_upto(*grid, final(self).queue@.len() as int),
    {
        let ghost g = *grid;
        let mut head: usize = 0;
        proof {
            lemma_inv_len(*self, g, to);
        }
        while head < self.queue.len()
            invariant
                g == *grid,
                self.inv(g, to),
                self.closed_upto(g, head as int),
                self.frontier_ok(g, head as int),
                head <= self.queue@.len() <= g.slots().len(),
            decreases g.slots().len() - self.queue@.len(), self.queue@.len() - head,
        {
            self.expand(grid, to, head);
            head += 1;
            proof {
                lemma_inv_len(*self, g, to);
            }
        }
    }

    /// Follows the search back from `from` to its root `to`. Each step goes to a
    /// neighbour one step closer to `to`; among several, the one nearest to `to`
    /// in Manhattan distance, then the smallest `x`, then the smallest `y`.
    fn walk(&self, grid: &MapGrid, from: GridCoord, to: GridCoord) -> (r: Vec<GridCoord>)
        requires
            self.inv(*grid, to),
            self.closed_upto(*grid, self.queue@.len() as int),
            grid.spec_in_bounds(from),
            passable(*grid, from),
            self.seen(*grid, from),
        ensures
            is_path(*grid, from, to, r@),
            r@.len() == self.d(*grid, from) + 1,
            best_steps(*grid, to, r@, r@.len() as int),
    {
        let ghost g = *grid;
        let mut path: Vec<GridCoord> = Vec::new();
        path.push(from);
        let mut cur = from;
        proof {
            lemma_inv_len(*self, g, to);
        }
        while cur != to
            invariant
                g == *grid,
                self.inv(g, to),
                g.wf(),
                g.spec_in_bounds(from),
                g.spec_in_bounds(to),
                g.spec_in_bounds(cur),
                self.seen(g, cur),
                self.visited@.len() == g.slots().len(),
                self.dist@.len() == g.slots().len(),
                self.parent@.len() == g.slots().len(),
                path@.len() >= 1,
                path@.len() + self.d(g, cur) == self.d(g, from) + 1,
                path@[0] == from,
                path@[path@.len() - 1] == cur,
                forall|i: int| 0 <= i < path@.len() ==> passable(g, #[trigger] path@[i]),
                forall|i: int| 1 <= i < path@.len() ==> adjacent(path@[i - 1], #[trigger] path@[i]),
                self.closed_upto(g, self.queue@.len() as int),
                best_steps(g, to, path@, self.d(g, from) + 1),
            decreases self.d(g, cur),
        {
            proof {
                lemma_inv_cell(*self, g, to, cur);
            }
            let best = self.next_step(grid, to, cur);
            proof {
                lemma_inv_cell(*self, g, to, best);
                assert forall|n: GridCoord|
                    adjacent(cur, n) && passable(g, n) && #[trigger] reaches_within(g, n, to, self.d(g, cur) - 1)
                    implies key_le(best, n, to) by {
                    lemma_candidate(*self, g, to, cur, n);
                }
            }
            let ghost before = path@;
            path.push(best);
            proof {
                assert forall|i: int| 0 <= i < path@.len() - 1 implies
                    best_step(g, to, #[trigger] path@[i], path@[i + 1], self.d(g, from) + 1 - 2 - i) by {
                    if i < before.len() - 1 {
                        assert(path@[i] == before[i] && path@[i + 1] == before[i + 1]);
                    } else {
                        assert(path@[i] == cur && path@[i + 1] == best);
                        assert(self.d(g, from) + 1 - 2 - i == self.d(g, cur) - 1);
                        assert(best_step(g, to, cur, best, self.d(g, cur) - 1));
                    }
                }
            }
            cur = best;
        }
        proof {
            lemma_inv_len(*self, g, to);
        }
        path
    }

    /// The next step from `cur` towards the root: among the neighbours one
    /// step closer, the best by `key_le`.
    fn next_step(&self, grid: &MapGrid, to: GridCoord, cur: GridCoord) -> (r: GridCoord)
        requires
            self.inv(*grid, to),
            grid.spec_in_bounds(cur),
            self.seen(*grid, cur),
            cur != to,
        ensures
            grid.spec_in_bounds(r),
            self.seen(*grid, r),
            adjacent(cur, r),
            self.d(*grid, r) + 1 == self.d(*grid, cur),
            forall|n: GridCoord|
                adjacent(cur, n) && grid.spec_in_bounds(n) && #[trigger] self.seen(*grid, n)
                    && self.d(*grid, n) + 1 == self.d(*grid, cur) ==> key_le(r, n, to),
    {
        let ghost g = *grid;
        proof {
            lemma_inv_len(*self, g, to);
            lemma_inv_cell(*self, g, to, cur);
        }
        let ci = grid.index(cur);
        let d = self.dist[ci];
        let mut best = self.parent[ci];
        let mut k: usize = 0;
        while k < 4
            invariant
                g == *grid,
                g.wf(),
                k <= 4,
                g.spec_in_bounds(cur),
                g.spec_in_bounds(to),
                self.visited@.len() == g.slots().len(),
                self.dist@.len() == g.slots().len(),
                d == self.d(g, cur),
                g.spec_in_bounds(best),
                self.seen(g, best),
                adjacent(cur, best),
                self.d(g, best) + 1 == d,
                forall|kk: int| 0 <= kk < k ==> #[trigger] self.step_beaten(g, to, cur, best, kk),
            decreases 4 - k,
        {
            let ghost old_best = best;
            match neighbor(grid, cur, k) {
                Some(m) => {
                    best = self.prefer(grid, to, cur, d, best, m);
                },
                None => {},
            }
            proof {
                assert forall|kk: int| 0 <= kk < k + 1 implies #[trigger] self.step_beaten(g, to, cur, best, kk) by {
                    if kk < k {
                        assert(self.step_beaten(g, to, cur, old_best, kk));
                    }
                }
            }
            k += 1;
        }
        proof {
            assert forall|n: GridCoord|
                adjacent(cur, n) && g.spec_in_bounds(n) && #[trigger] self.seen(g, n)
                    && self.d(g, n) + 1 == self.d(g, cur) implies key_le(best, n, to) by {
                lemma_neighbor_complete(g, cur, n);
                let kk = choose|kk: int| 0 <= kk < 4 && #[trigger] spec_neighbor(g, cur, kk) == Some(n);
                assert(self.step_beaten(g, to, cur, best, kk));
            }
        }
        best
    }

    /// The `k`-th neighbour of `cur`, if it is one step closer, is no better than `best`.
    spec fn step_beaten(self, grid: MapGrid, to: GridCoord, cur: GridCoord, best: GridCoord, k: int) -> bool {
        match spec_neighbor(grid, cur, k) {
            Some(m) => self.seen(grid, m) && self.d(grid, m) + 1 == self.d(grid, cur) ==> key_le(best, m, to),
            None => true,
        }
    }

    /// `best` or `m`, whichever makes the better next step from `cur`.
    fn prefer(&self, grid: &MapGrid, to: GridCoord, cur: GridCoord, d: usize, best: GridCoord, m: GridCoord) -> (r: GridCoord)
        requires
            grid.wf(),
            self.visited@.len() == grid.slots().len(),
            self.dist@.len() == grid.slots().len(),
            grid.spec_in_bounds(m),
            grid.spec_in_bounds(to),
            grid.spec_in_bounds(best),
            self.seen(*grid, best),
            adjacent(cur, best),
            self.d(*grid, best) + 1 == d,
            adjacent(cur, m),
        ensures
            grid.spec_in_bounds(r),
            self.seen(*grid, r),
            adjacent(cur, r),
            self.d(*grid, r) + 1 == d,
            key_le(r, best, to),
            self.seen(*grid, m) && self.d(*grid, m) + 1 == d ==> key_le(r, m, to),
    {
        let i = grid.index(m);
        if !self.visited[i] || self.dist[i] != d - 1 {
            return best;
        }
        let hm = manhattan_exec(m, to);
        let hb = manhattan_exec(best, to);
        if hm < hb || (hm == hb && (m.x < best.x || (m.x == best.x && m.y < best.y))) {
            m
        } else {
            best
        }
    }
}

/// The `k`-th neighbour of `c` (right, left, up, down), if it lies on the map.
spec fn spec_neighbor(g: MapGrid, c: GridCoord, k: int) -> Option<GridCoord> {
    if k == 0 && c.x + 1 < g.width {
        Some(GridCoord { x: (c.x + 1) as i32, y: c.y })
    } else if k == 1 && c.x > 0 {
        Some(GridCoord { x: (c.x - 1) as i32, y: c.y })
    } else if k == 2 && c.y + 1 < g.height {
        Some(GridCoord { x: c.x, y: (c.y + 1) as i32 })
    } else if k == 3 && c.y > 0 {
        Some(GridCoord { x: c.x, y: (c.y - 1) as i32 })
    } else {
        None
    }
}

fn neighbor(grid: &MapGrid, c: GridCoord, k: usize) -> (r: Option<GridCoord>)
    requires
        grid.wf(),
        grid.spec_in_bounds(c),
    ensures
        r == spec_neighbor(*grid, c, k as int),
        r matches Some(m) ==> grid.spec_in_bounds(m) && adjacent(c, m),
{
    if k == 0 && c.x + 1 < grid.width {
        Some(GridCoord { x: c.x + 1, y: c.y })
    } else if k == 1 && c.x > 0 {
        Some(GridCoord { x: c.x - 1, y: c.y })
    } else if k == 2 && c.y + 1 < grid.height {
        Some(GridCoord { x: c.x, y: c.y + 1 })
    } else if k == 3 && c.y > 0 {
        Some(GridCoord { x: c.x, y: c.y - 1 })
    } else {
        None
    }
}

proof fn lemma_neighbor_complete(g: MapGrid, c: GridCoord, m: GridCoord)
    requires
        g.spec_in_bounds(c),
        g.spec_in_bounds(m),
        adjacent(c, m),
    ensures
        exists|k: int| 0 <= k < 4 && #[trigger] spec_neighbor(g, c, k) == Some(m),
{
    if m.x == c.x + 1 {
        assert(spec_neighbor(g, c, 0) == Some(m));
    } else if m.x == c.x - 1 {
        assert(spec_neighbor(g, c, 1) == Some(m));
    } else if m.y == c.y + 1 {
        assert(spec_neighbor(g, c, 2) == Some(m));
    } else {
        assert(spec_neighbor(g, c, 3) == Some(m));
    }
}

proof fn lemma_grows_trans(a: Search, b: Search, c: Search, g: MapGrid)
    requires
        b.grows_from(a, g),
        c.grows_from(b, g),
    ensures
        c.grows_from(a, g),
{
    assert forall|x: GridCoord| g.spec_in_bounds(x) && #[trigger] a.seen(g, x) implies c.seen(g, x) && c.d(g, x) == a.d(g, x) by {
        assert(b.seen(g, x));
    }
    assert forall|j: int| 0 <= j < a.queue@.len() implies c.queue@[j] == a.queue@[j] by {
        assert(b.queue@[j] == a.queue@[j]);
    }
}

fn manhattan_exec(a: GridCoord, b: GridCoord) -> (r: i64)
    ensures
        r == manhattan(a, b),
{
    let dx = a.x as i64 - b.x as i64;
    let dy = a.y as i64 - b.y as i64;
    (if dx < 0 { -dx } else { dx }) + (if dy < 0 { -dy } else { dy })
}

proof fn lemma_inv_len(s: Search, g: MapGrid, to: GridCoord)
    requires
        s.inv(g, to),
    ensures
        g.wf(),
        s.queue@.len() <= g.slots().len(),
        s.visited@.len() == g.slots().len(),
        s.dist@.len() == g.slots().len(),
        s.parent@.len() == g.slots().len(),
        s.seen(g, to),
        s.d(g, to) == 0,
        g.spec_in_bounds(to),
{
    reveal(Search::inv);
    lemma_count_true_bound(s.visited@);
}

proof fn lemma_inv_queue(s: Search, g: MapGrid, to: GridCoord, j: int)
    requires
        s.inv(g, to),
        0 <= j < s.queue@.len(),
    ensures
        g.wf(),
        g.spec_in_bounds(s.queue@[j]),
        s.seen(g, s.queue@[j]),
{
    reveal(Search::inv);
}

/// A seen cell lies at most one step further than the cell at `head`.
proof fn lemma_seen_near(s: Search, g: MapGrid, to: GridCoord, head: int, m: GridCoord)
    requires
        s.inv(g, to),
        s.frontier_ok(g, head),
        0 <= head < s.queue@.len(),
        g.spec_in_bounds(m),
        s.seen(g, m),
    ensures
        s.d(g, m) <= s.d(g, s.queue@[head]) + 1,
{
    reveal(Search::inv);
    assert(s.cell_ok(g, to, m));
    let j = choose|j: int| 0 <= j < s.queue@.len() && s.queue@[j] == m;
    if j < head {
        assert(s.d(g, s.queue@[j]) <= s.d(g, s.queue@[head]));
    } else {
        assert(s.d(g, s.queue@[j]) <= s.d(g, s.queue@[head]) + 1);
    }
}

proof fn lemma_inv_cell(s: Search, g: MapGrid, to: GridCoord, c: GridCoord)
    requires
        s.inv(g, to),
        g.spec_in_bounds(c),
        s.seen(g, c),
    ensures
        s.cell_ok(g, to, c),
{
    reveal(Search::inv);
}

/// Every cell of a path into `to` is seen by a drained search rooted at `to`,
/// at a distance no larger than the number of steps left on the path.
proof fn lemma_path_seen(
    s: Search,
    g: MapGrid,
    to: GridCoord,
    start: GridCoord,
    p: Seq<GridCoord>,
    k: int,
)
    requires
        s.inv(g, to),
        s.closed_upto(g, s.queue@.len() as int),
        is_path(g, start, to, p),
        admissible(g, start),
        0 <= k < p.len(),
    ensures
        s.seen(g, p[k]),
        s.d(g, p[k]) <= p.len() - 1 - k,
    decreases p.len() - k,
{
    lemma_inv_len(s, g, to);
    if k < p.len() - 1 {
        lemma_path_seen(s, g, to, start, p, k + 1);
        let q = p[k + 1];
        assert(passable(g, q));
        lemma_inv_cell(s, g, to, q);
        let j = choose|j: int| 0 <= j < s.queue@.len() && s.queue@[j] == q;
        assert(adjacent(s.queue@[j], p[k]));
        if k > 0 {
            assert(passable(g, p[k]));
        }
        assert(admissible(g, p[k]));
        assert(s.d(g, p[k]) <= s.d(g, s.queue@[j]) + 1);
    }
}

/// A walkable neighbour of `cur` that reaches `to` in one step fewer than `cur`
/// does is exactly one step closer in the search.
proof fn lemma_candidate(s: Search, g: MapGrid, to: GridCoord, cur: GridCoord, n: GridCoord)
    requires
        s.inv(g, to),
        s.closed_upto(g, s.queue@.len() as int),
        g.spec_in_bounds(cur),
        s.seen(g, cur),
        adjacent(cur, n),
        passable(g, n),
        reaches_within(g, n, to, s.d(g, cur) - 1),
    ensures
        g.spec_in_bounds(n),
        s.seen(g, n),
        s.d(g, n) + 1 == s.d(g, cur),
{
    let q = choose|q: Seq<GridCoord>| is_path(g, n, to, q) && q.len() <= s.d(g, cur) - 1 + 1;
    lemma_path_seen(s, g, to, n, q, 0);
    lemma_inv_cell(s, g, to, n);
    lemma_inv_cell(s, g, to, cur);
    let j = choose|j: int| 0 <= j < s.queue@.len() && s.queue@[j] == n;
    assert(adjacent(s.queue@[j], cur));
    assert(admissible(g, cur));
}

proof fn lemma_step_unchanged(prev: Search, next: Search, g: MapGrid, cur: GridCoord, m: GridCoord, c: GridCoord)
    requires
        g.wf(),
        g.spec_in_bounds(m),
        g.spec_in_bounds(c),
        c != m,
        prev.visited@.len() == g.slots().len(),
        prev.dist@.len() == g.slots().len(),
        prev.parent@.len() == g.slots().len(),
        prev.stepped(next, g, cur, m),
    ensures
        next.seen(g, c) == prev.seen(g, c),
        next.d(g, c) == prev.d(g, c),
        next.par(g, c) == prev.par(g, c),
{
    lemma_index_in_range(g.width as int, g.height as int, m.x as int, m.y as int);
    lemma_index_in_range(g.width as int, g.height as int, c.x as int, c.y as int);
    lemma_index_injective(g.width as int, g.height as int, c, m);
}

proof fn lemma_step(prev: Search, next: Search, g: MapGrid, to: GridCoord, head: int, cur: GridCoord, m: GridCoord)
    requires
        prev.inv(g, to),
        prev.closed_upto(g, head),
        prev.frontier_ok(g, head),
        0 <= head < prev.queue@.len(),
        prev.queue@[head] == cur,
        g.spec_in_bounds(m),
        adjacent(cur, m),
        admissible(g, m),
        !prev.seen(g, m),
        prev.d(g, cur) + 1 <= usize::MAX,
        prev.stepped(next, g, cur, m),
    ensures
        next.inv(g, to),
        next.closed_upto(g, head),
        next.frontier_ok(g, head),
        next.grows_from(prev, g),
        next.seen(g, m),
        next.d(g, m) == next.d(g, cur) + 1,
{
    reveal(Search::inv);
    let n = g.slots().len();
    let i = g.index_of(m);
    lemma_index_in_range(g.width as int, g.height as int, m.x as int, m.y as int);
    lemma_count_true_set(prev.visited@, i);
    let len = next.queue@.len();
    assert(cur != m);
    assert(to != m);
    lemma_step_unchanged(prev, next, g, cur, m, to);
    lemma_step_unchanged(prev, next, g, cur, m, cur);
    assert(next.queue_ok(g)) by {
        assert forall|j: int| 0 <= j < len implies {
            &&& g.spec_in_bounds(#[trigger] next.queue@[j])
            &&& next.seen(g, next.queue@[j])
            &&& next.d(g, next.queue@[j]) <= j
        } by {
            if j < len - 1 {
                let q = prev.queue@[j];
                assert(prev.seen(g, q));
                lemma_step_unchanged(prev, next, g, cur, m, q);
            } else {
                assert(prev.d(g, cur) <= head);
            }
        }
    }
    assert(next.cells_ok(g, to)) by {
        assert forall|c: GridCoord| g.spec_in_bounds(c) && #[trigger] next.seen(g, c) implies next.cell_ok(g, to, c) by {
            if c == m {
                assert(next.queue@[len - 1] == c);
            } else {
                lemma_step_unchanged(prev, next, g, cur, m, c);
                assert(prev.cell_ok(g, to, c));
                let j = choose|j: int| 0 <= j < prev.queue@.len() && prev.queue@[j] == c;
                assert(next.queue@[j] == c);
                if c != to {
                    let p = prev.par(g, c);
                    lemma_step_unchanged(prev, next, g, cur, m, p);
                }
            }
        }
    }
    assert forall|jj: int, mm: GridCoord|
        0 <= jj < head && adjacent(#[trigger] next.queue@[jj], mm) && #[trigger] admissible(g, mm)
        implies next.seen(g, mm) && next.d(g, mm) <= next.d(g, next.queue@[jj]) + 1 by {
        let q = prev.queue@[jj];
        assert(next.queue@[jj] == q);
        assert(prev.seen(g, mm));
        assert(prev.seen(g, q));
        lemma_step_unchanged(prev, next, g, cur, m, mm);
        lemma_step_unchanged(prev, next, g, cur, m, q);
    }
    assert forall|c: GridCoord| g.spec_in_bounds(c) && #[trigger] prev.seen(g, c)
        implies next.seen(g, c) && next.d(g, c) == prev.d(g, c) by {
        lemma_step_unchanged(prev, next, g, cur, m, c);
    }
    assert forall|j: int| 0 <= j < len - 1 implies next.d(g, #[trigger] next.queue@[j]) == prev.d(g, prev.queue@[j]) by {
        let q = prev.queue@[j];
        assert(prev.seen(g, q));
        lemma_step_unchanged(prev, next, g, cur, m, q);
    }
    assert(next.d(g, next.queue@[len - 1]) == prev.d(g, cur) + 1);
    assert forall|a: int, b: int| 0 <= a <= b < len implies
        next.d(g, #[trigger] next.queue@[a]) <= next.d(g, #[trigger] next.queue@[b]) by {
        if b == len - 1 && a < len - 1 {
            if a < head {
                assert(prev.d(g, prev.queue@[a]) <= prev.d(g, prev.queue@[head as int]));
            } else {
                assert(prev.d(g, prev.queue@[a]) <= prev.d(g, prev.queue@[head as int]) + 1);
            }
        } else if b < len - 1 {
            assert(prev.d(g, prev.queue@[a]) <= prev.d(g, prev.queue@[b]));
        }
    }
    assert forall|j: int| head <= j < len implies
        next.d(g, #[trigger] next.queue@[j]) <= next.d(g, next.queue@[head]) + 1 by {
        if j < len - 1 {
            assert(prev.d(g, prev.queue@[j]) <= prev.d(g, prev.queue@[head as int]) + 1);
        }
    }
}

/// A shortest walkable path from `from` to `to`, or `None` when either end is
/// off the map or no path of registered, walkable cells joins them (so also
/// when the start or the goal itself is not walkable). No path is shorter than
/// the one returned.
///
/// The search is breadth-first over the 4-connected grid restricted to walkable
/// cells, with unit step cost. Among equally short paths, each
/// step goes to the neighbour nearest to `to` in Manhattan distance, then to the
/// one with the smallest `x`, then the smallest `y`.
pub fn find_path(grid: &MapGrid, from: GridCoord, to: GridCoord) -> (r: Option<Vec<GridCoord>>)
    requires
        grid.wf(),
    ensures
        r is Some <==> grid.spec_in_bounds(from) && grid.spec_in_bounds(to) && path_exists(*grid, from, to),
        r matches Some(p) ==> is_path(*grid, from, to, p@),
        r matches Some(p) ==> forall|q: Seq<GridCoord>| #[trigger] is_path(*grid, from, to, q) ==> p@.len() <= q.len(),
        r matches Some(p) ==> best_steps(*grid, to, p@, p@.len() as int),
        from == to && passable(*grid, from) ==> (r matches Some(p) && p@ == seq![from]),
{
    let ghost g = *grid;
    if !grid.in_bounds(from) || !grid.in_bounds(to) {
        proof {
            assert forall|p: Seq<GridCoord>| !is_path(g, from, to, p) by {
                if is_path(g, from, to, p) && p.len() > 1 {
                    assert(passable(g, p[p.len() - 1]));
                }
            }
        }
        return None;
    }
    let start_walkable = match grid.get_cell(from) {
        Some(cell) => cell.walkable,
        None => false,
    };
    if !start_walkable {
        proof {
            assert forall|p: Seq<GridCoord>| !is_path(g, from, to, p) by {
                if is_path(g, from, to, p) {
                    assert(passable(g, p[0]));
                }
            }
        }
        return None;
    }
    if from == to {
        let mut p: Vec<GridCoord> = Vec::new();
        p.push(from);
        proof {
            assert(is_path(g, from, to, p@));
        }
        return Some(p);
    }
    let walkable = match grid.get_cell(to) {
        Some(cell) => cell.walkable,
        None => false,
    };
    if !walkable {
        proof {
            assert forall|p: Seq<GridCoord>| !is_path(g, from, to, p) by {
                if is_path(g, from, to, p) {
                    assert(passable(g, p[p.len() - 1]));
                }
            }
        }
        return None;
    }
    let mut search = Search::start(grid, to);
    search.run(grid, to);
    proof {
        lemma_inv_len(search, g, to);
        lemma_index_in_range(g.width as int, g.height as int, from.x as int, from.y as int);
    }
    if !search.visited[grid.index(from)] {
        proof {
            assert forall|p: Seq<GridCoord>| !is_path(g, from, to, p) by {
                if is_path(g, from, to, p) {
                    lemma_path_seen(search, g, to, from, p, 0);
                }
            }
        }
        return None;
    }
    let path = search.walk(grid, from, to);
    proof {
        assert forall|q: Seq<GridCoord>| #[trigger] is_path(g, from, to, q) implies path@.len() <= q.len() by {
            lemma_path_seen(search, g, to, from, q, 0);
        }
    }
    Some(path)
}

} // verus!
