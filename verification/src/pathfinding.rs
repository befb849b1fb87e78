use vstd::prelude::*;
use vstd::set_lib::*;
use crate::lookup::{first_index, is_first, lemma_first_index_some};

verus! {

/// A grid cell, as `(column, row)`.
pub type Cell = (u32, u32);

/// Row-major index of `c` in a grid `w` cells wide.
pub open spec fn sidx(w: u32, c: Cell) -> int {
    c.1 as int * w as int + c.0 as int
}

/// `b` is one of the eight cells around `a` (a king's move away).
pub open spec fn adjacent(a: Cell, b: Cell) -> bool {
    let dx = b.0 as int - a.0 as int;
    let dy = b.1 as int - a.1 as int;
    -1 <= dx <= 1 && -1 <= dy <= 1 && !(dx == 0 && dy == 0)
}

/// Cost of a straight step, in units of 2^-24.
pub const STRAIGHT_COST: u64 = 0x100_0000;

/// Cost of a diagonal step, in units of 2^-24: `f32::consts::SQRT_2`
/// (0x3fb5_04f3) exactly.
pub const DIAGONAL_COST: u64 = 23_726_566;

/// Cost of the king's move from `a` to `b`: diagonal or straight.
pub open spec fn step_cost(a: Cell, b: Cell) -> int {
    if a.0 != b.0 && a.1 != b.1 {
        DIAGONAL_COST as int
    } else {
        STRAIGHT_COST as int
    }
}

/// Octile distance between two cells: `max - min` straight steps and `min`
/// diagonal ones, the cost of the cheapest walk on an open grid.
pub open spec fn octile_distance(a: Cell, b: Cell) -> int {
    let dx = if a.0 >= b.0 { a.0 - b.0 } else { b.0 - a.0 };
    let dy = if a.1 >= b.1 { a.1 - b.1 } else { b.1 - a.1 };
    let mn = if dx < dy { dx } else { dy };
    let mx = if dx < dy { dy } else { dx };
    (mx - mn) * STRAIGHT_COST + mn * DIAGONAL_COST
}

/// Grid-based 8-directional A* pathfinder. `grid[y * width + x]` is true when
/// the cell `(x, y)` is passable. `cell_size_bits` is the IEEE-754 bit pattern
/// of the world-units width of one cell; the grid logic never reads it.
pub struct GridPathfinder {
    pub grid: Vec<bool>,
    pub width: u32,
    pub height: u32,
    pub cell_size_bits: u32,
}

/// Entry of the open list: estimated total cost `f` of a walk through `cell`.
struct OpenEntry {
    f: u64,
    cell: Cell,
}

/// Row-major indexing maps the cells of a `w × h` grid one-to-one into `0..w*h`.
pub open spec fn grid_indexing(w: u32, h: u32) -> bool {
    &&& forall|a: Cell| a.0 < w && a.1 < h ==> 0 <= #[trigger] sidx(w, a) < w as int * h as int
    &&& forall|a: Cell, b: Cell|
        a.0 < w && a.1 < h && b.0 < w && b.1 < h && #[trigger] sidx(w, a) == #[trigger] sidx(w, b)
            ==> a == b
}

proof fn lemma_grid_indexing(w: u32, h: u32)
    ensures
        grid_indexing(w, h),
{
    assert forall|a: Cell| a.0 < w && a.1 < h implies 0 <= #[trigger] sidx(w, a) < w as int * h as int by {
        lemma_sidx_bounds(w, h, a);
    }
    assert forall|a: Cell, b: Cell|
        a.0 < w && a.1 < h && b.0 < w && b.1 < h && #[trigger] sidx(w, a) == #[trigger] sidx(w, b)
        implies a == b by {
        lemma_sidx_injective(w, a, b);
    }
}

proof fn lemma_sidx_bounds(w: u32, h: u32, c: Cell)
    requires
        c.0 < w,
        c.1 < h,
    ensures
        0 <= sidx(w, c) < w as int * h as int,
{
    assert(sidx(w, c) < (w as int) * (h as int)) by (nonlinear_arith)
        requires
            c.0 < w,
            c.1 < h,
    {
        assert((c.1 as int) * (w as int) + (w as int) <= (h as int) * (w as int));
    }
    assert(0 <= c.1 as int * w as int) by (nonlinear_arith);
}

proof fn lemma_sidx_injective(w: u32, a: Cell, b: Cell)
    requires
        a.0 < w,
        b.0 < w,
        sidx(w, a) == sidx(w, b),
    ensures
        a == b,
{
    if a.1 < b.1 {
        assert((a.1 as int) * (w as int) + (w as int) <= (b.1 as int) * (w as int)) by (nonlinear_arith)
            requires
                a.1 < b.1,
        ;
    } else if b.1 < a.1 {
        assert((b.1 as int) * (w as int) + (w as int) <= (a.1 as int) * (w as int)) by (nonlinear_arith)
            requires
                b.1 < a.1,
        ;
    }
}

/// The direction of the `k`-th neighbour, in the order the search visits them.
spec fn dir(k: int) -> (int, int) {
    if k == 0 {
        (1, 0)
    } else if k == 1 {
        (-1, 0)
    } else if k == 2 {
        (0, 1)
    } else if k == 3 {
        (0, -1)
    } else if k == 4 {
        (1, 1)
    } else if k == 5 {
        (-1, 1)
    } else if k == 6 {
        (1, -1)
    } else {
        (-1, -1)
    }
}

fn dir_exec(k: usize) -> (r: (i64, i64))
    requires
        k < 8,
    ensures
        r.0 == dir(k as int).0,
        r.1 == dir(k as int).1,
{
    if k == 0 {
        (1, 0)
    } else if k == 1 {
        (-1, 0)
    } else if k == 2 {
        (0, 1)
    } else if k == 3 {
        (0, -1)
    } else if k == 4 {
        (1, 1)
    } else if k == 5 {
        (-1, 1)
    } else if k == 6 {
        (1, -1)
    } else {
        (-1, -1)
    }
}

proof fn lemma_adjacent_is_some_dir(a: Cell, b: Cell)
    requires
        adjacent(a, b),
    ensures
        exists|k: int|
            0 <= k < 8 && b.0 as int == a.0 as int + (#[trigger] dir(k)).0 && b.1 as int == a.1
                as int + dir(k).1,
{
    let dx = b.0 as int - a.0 as int;
    let dy = b.1 as int - a.1 as int;
    let k: int = if dx == 1 && dy == 0 {
        0
    } else if dx == -1 && dy == 0 {
        1
    } else if dx == 0 && dy == 1 {
        2
    } else if dx == 0 && dy == -1 {
        3
    } else if dx == 1 && dy == 1 {
        4
    } else if dx == -1 && dy == 1 {
        5
    } else if dx == 1 && dy == -1 {
        6
    } else {
        7
    };
    assert(b.0 as int == a.0 as int + dir(k).0 && b.1 as int == a.1 as int + dir(k).1);
}

fn abs_diff(a: u32, b: u32) -> (r: u32)
    ensures
        r == (if a >= b {
            a - b
        } else {
            b - a
        }),
{
    if a >= b {
        a - b
    } else {
        b - a
    }
}

fn octile_exec(a: Cell, b: Cell) -> (r: u64)
    ensures
        r == octile_distance(a, b),
        r <= 0xffff_ffff * DIAGONAL_COST,
{
    let dx = abs_diff(a.0, b.0);
    let dy = abs_diff(a.1, b.1);
    let (mn, mx) = if dx < dy {
        (dx, dy)
    } else {
        (dy, dx)
    };
    (mx - mn) as u64 * STRAIGHT_COST + mn as u64 * DIAGONAL_COST
}


/// Where a walk leaving `from` along `path` ends.
pub open spec fn walk_end(from: Cell, path: Seq<Cell>) -> Cell {
    if path.len() == 0 {
        from
    } else {
        path.last()
    }
}

/// Total cost of walking `path` from `from`: the sum of its steps' costs.
pub open spec fn walk_cost(from: Cell, path: Seq<Cell>) -> int
    decreases path.len(),
{
    if path.len() == 0 {
        0
    } else {
        let prev = walk_end(from, path.drop_last());
        walk_cost(from, path.drop_last()) + step_cost(prev, path.last())
    }
}

proof fn lemma_walk_cost_nonneg(from: Cell, path: Seq<Cell>)
    ensures
        walk_cost(from, path) >= 0,
    decreases path.len(),
{
    if path.len() > 0 {
        lemma_walk_cost_nonneg(from, path.drop_last());
    }
}

/// A walk splits at any point into the walk up to it and the walk after it.
proof fn lemma_walk_cost_split(from: Cell, path: Seq<Cell>, k: int)
    requires
        0 <= k <= path.len(),
    ensures
        walk_cost(from, path) == walk_cost(from, path.take(k)) + walk_cost(walk_end(from, path.take(k)), path.skip(k)),
    decreases path.len(),
{
    if k == path.len() {
        assert(path.take(k) =~= path);
        assert(path.skip(k) =~= Seq::<Cell>::empty());
    } else {
        lemma_walk_cost_split(from, path.drop_last(), k);
        assert(path.drop_last().take(k) =~= path.take(k));
        let mid = walk_end(from, path.take(k));
        let rest = path.skip(k);
        assert(rest.drop_last() =~= path.drop_last().skip(k));
        assert(rest.last() == path.last());
        if k == path.len() - 1 {
            assert(path.drop_last() =~= path.take(k));
            assert(path.drop_last().skip(k) =~= Seq::<Cell>::empty());
        } else {
            assert(walk_end(mid, rest.drop_last()) == walk_end(from, path.drop_last()));
        }
    }
}

proof fn lemma_walk_cost_single(from: Cell, x: Cell)
    ensures
        walk_cost(from, seq![x]) == step_cost(from, x),
{
    let s = seq![x];
    assert(s.drop_last() =~= Seq::<Cell>::empty());
    assert(walk_cost(from, s.drop_last()) == 0);
    assert(walk_end(from, s.drop_last()) == from);
    assert(s.last() == x);
}

/// Walking back one more parent adds that step's cost in front.
proof fn lemma_walk_cost_prepend(from: Cell, x: Cell, rest: Seq<Cell>)
    ensures
        walk_cost(from, seq![x] + rest) == step_cost(from, x) + walk_cost(x, rest),
{
    let r = seq![x] + rest;
    lemma_walk_cost_split(from, r, 1);
    assert(r.take(1) =~= seq![x]);
    assert(r.skip(1) =~= rest);
    lemma_walk_cost_single(from, x);
}

/// Taking the first steps of a walk, or the steps after them, gives walks.
proof fn lemma_walk_parts(pf: &GridPathfinder, from: Cell, path: Seq<Cell>, k: int)
    requires
        0 <= k <= path.len(),
        pf.is_walk(from, path),
    ensures
        pf.is_walk(from, path.take(k)),
        pf.is_walk(walk_end(from, path.take(k)), path.skip(k)),
{
    let t = path.take(k);
    let r = path.skip(k);
    assert forall|i: int| 0 <= i < t.len() implies pf.passable(#[trigger] t[i]) && adjacent(
        if i == 0 {
            from
        } else {
            t[i - 1]
        },
        t[i],
    ) by {
        assert(t[i] == path[i]);
        if i > 0 {
            assert(t[i - 1] == path[i - 1]);
        }
    }
    assert forall|i: int| 0 <= i < r.len() implies pf.passable(#[trigger] r[i]) && adjacent(
        if i == 0 {
            walk_end(from, t)
        } else {
            r[i - 1]
        },
        r[i],
    ) by {
        assert(r[i] == path[k + i]);
        assert(pf.passable(path[k + i]));
        if i > 0 {
            assert(r[i - 1] == path[k + i - 1]);
        } else if k > 0 {
            assert(t.last() == path[k - 1]);
        }
    }
}

/// The octile estimate never drops by more than a step's cost: it is a
/// consistent heuristic for the goal.
proof fn lemma_octile_consistent(a: Cell, b: Cell, goal: Cell)
    requires
        adjacent(a, b),
    ensures
        octile_distance(a, goal) <= step_cost(a, b) + octile_distance(b, goal),
{
}

/// The estimate at the start of a walk is at most the walk's cost plus the
/// estimate where it ends.
proof fn lemma_octile_along_walk(pf: &GridPathfinder, from: Cell, path: Seq<Cell>, goal: Cell)
    requires
        pf.is_walk(from, path),
    ensures
        octile_distance(from, goal) <= walk_cost(from, path) + octile_distance(walk_end(from, path), goal),
    decreases path.len(),
{
    if path.len() > 0 {
        let init = path.drop_last();
        lemma_walk_parts(pf, from, path, path.len() - 1);
        assert(path.take(path.len() - 1) =~= init);
        lemma_octile_along_walk(pf, from, init, goal);
        let prev = walk_end(from, init);
        assert(adjacent(prev, path.last())) by {
            assert(path[path.len() - 1] == path.last());
            if path.len() > 1 {
                assert(init.last() == path[path.len() - 2]);
            }
        }
        lemma_octile_consistent(prev, path.last(), goal);
    }
}

impl GridPathfinder {
    /// Well-formed: the grid holds exactly `width * height` cells, a count
    /// that fits a `u32`.
    pub open spec fn wf(&self) -> bool {
        &&& self.width as int * self.height as int <= u32::MAX
        &&& self.grid@.len() == self.width as int * self.height as int
    }

    pub open spec fn in_grid(&self, c: Cell) -> bool {
        c.0 < self.width && c.1 < self.height
    }

    /// The search recorded for `c` a closed parent one king's move away, closed
    /// before `c` itself if `c` is closed.
    spec fn has_closed_parent(
        &self,
        came: Seq<Option<Cell>>,
        closed: Seq<bool>,
        order: Seq<nat>,
        c: Cell,
    ) -> bool {
        match came[sidx(self.width, c)] {
            Some(p) => self.in_grid(p) && closed[sidx(self.width, p)] && adjacent(p, c)
                && self.passable(c) && (closed[sidx(self.width, c)] ==> order[sidx(self.width, p)]
                < order[sidx(self.width, c)]),
            None => false,
        }
    }

    /// `c` lies on the grid and is passable.
    pub open spec fn passable(&self, c: Cell) -> bool {
        self.in_grid(c) && self.grid@[sidx(self.width, c)]
    }

    /// `path` is a walk leaving `start`: every cell is passable and each one
    /// is a king's move from the one before it (the first from `start`).
    pub open spec fn is_walk(&self, start: Cell, path: Seq<Cell>) -> bool {
        forall|i: int|
            0 <= i < path.len() ==> self.passable(#[trigger] path[i]) && adjacent(
                if i == 0 {
                    start
                } else {
                    path[i - 1]
                },
                path[i],
            )
    }

    /// No walk from `start` to `goal` costs less than `path`.
    pub open spec fn is_cheapest(&self, start: Cell, goal: Cell, path: Seq<Cell>) -> bool {
        forall|q: Seq<Cell>|
            q.len() > 0 && #[trigger] self.is_walk(start, q) && q.last() == goal ==> walk_cost(start, path)
                <= walk_cost(start, q)
    }

    /// Some non-empty walk leaves `start` and ends on `goal`.
    pub open spec fn reachable(&self, start: Cell, goal: Cell) -> bool {
        exists|p: Seq<Cell>| p.len() > 0 && #[trigger] self.is_walk(start, p) && p.last() == goal
    }

    /// A `width × height` grid with every cell passable.
    pub fn new(width: u32, height: u32, cell_size_bits: u32) -> (r: Self)
        requires
            width as int * height as int <= u32::MAX,
        ensures
            r.wf(),
            r.width == width,
            r.height == height,
            r.cell_size_bits == cell_size_bits,
            forall|i: int| 0 <= i < r.grid@.len() ==> r.grid@[i],
    {
        let size: u32 = width * height;
        let mut grid: Vec<bool> = Vec::new();
        let mut i: u32 = 0;
        while i < size
            invariant
                i <= size,
                grid@.len() == i,
                forall|j: int| 0 <= j < i ==> grid@[j],
            decreases size - i,
        {
            grid.push(true);
            i = i + 1;
        }
        GridPathfinder { grid, width, height, cell_size_bits }
    }

    fn idx(&self, c: Cell) -> (r: usize)
        requires
            self.wf(),
            self.in_grid(c),
        ensures
            r as int == sidx(self.width, c),
            r < self.grid@.len(),
    {
        proof {
            lemma_sidx_bounds(self.width, self.height, c);
        }
        (c.1 * self.width + c.0) as usize
    }

    /// Whether the cell `c` is on the grid and passable.
    pub fn is_passable_cell(&self, c: Cell) -> (r: bool)
        requires
            self.wf(),
        ensures
            r == self.passable(c),
    {
        if c.0 >= self.width || c.1 >= self.height {
            return false;
        }
        self.grid[self.idx(c)]
    }

    /// Marks cell `c` blocked (or passable again); cells off the grid are ignored.
    pub fn set_blocked_cell(&mut self, c: Cell, blocked: bool)
        requires
            old(self).wf(),
        ensures
            final(self).wf(),
            final(self).width == old(self).width,
            final(self).height == old(self).height,
            final(self).cell_size_bits == old(self).cell_size_bits,
            old(self).in_grid(c) ==> final(self).grid@ == old(self).grid@.update(
                sidx(old(self).width, c),
                !blocked,
            ),
            !old(self).in_grid(c) ==> final(self).grid@ == old(self).grid@,
    {
        if c.0 < self.width && c.1 < self.height {
            let i = self.idx(c);
            self.grid.set(i, !blocked);
        }
    }

    /// 8-directional A* from `start` to `goal`, a straight step costing 1
    /// and a diagonal one `f32::consts::SQRT_2` (in fixed point, see
    /// [`DIAGONAL_COST`]). Returns the cells of a cheapest walk after `start`,
    /// ending on `goal`; `[goal]` when `start == goal`; and an empty path
    /// when either cell is off the grid, the goal is blocked, or no walk
    /// reaches the goal.
    pub fn find_path_cells(&self, start: Cell, goal: Cell) -> (path: Vec<Cell>)
        requires
            self.wf(),
        ensures
            path@.len() == 0 <==> (!self.in_grid(start) || !self.passable(goal) || (start != goal
                && !self.reachable(start, goal))),
            path@.len() > 0 && start == goal ==> path@ == seq![goal],
            path@.len() > 0 && start != goal ==> self.is_walk(start, path@) && path@.last()
                == goal && self.is_cheapest(start, goal, path@),
    {
        let w = self.width;
        let h = self.height;
        if start.0 >= w || start.1 >= h || goal.0 >= w || goal.1 >= h {
            return Vec::new();
        }
        let start_idx = self.idx(start);
        let goal_idx = self.idx(goal);
        if !self.grid[goal_idx] {
            return Vec::new();
        }
        if start_idx == goal_idx {
            proof {
                lemma_sidx_injective(w, start, goal);
            }
            let mut v = Vec::new();
            v.push(goal);
            return v;
        }
        proof {
            lemma_grid_indexing(w, h);
        }
        let mut search = Search::start(self, start, goal);
        let mut found = false;
        while search.open.len() > 0
            invariant_except_break
                !found,
                waiting(self, goal, search.g@, search.closed@, search.open@),
            invariant
                self.wf(),
                grid_indexing(self.width, self.height),
                self.in_grid(start),
                self.passable(goal),
                start != goal,
                goal_idx as int == sidx(self.width, goal),
                search.core_inv(self, start, goal),
                closure(self, search.g@, search.closed@),
            ensures
                found ==> search.g@[sidx(self.width, goal)] is Some,
                found ==> forall|q: Seq<Cell>|
                    q.len() > 0 && #[trigger] self.is_walk(start, q) && q.last() == goal ==> search.g@[sidx(
                        self.width,
                        goal,
                    )].unwrap() <= walk_cost(start, q),
                !found ==> search.open@.len() == 0 && waiting(self, goal, search.g@, search.closed@, search.open@),
            decreases self.grid@.len() - search.n_closed, search.open@.len(),
        {
            let ghost before = search;
            let node = search.pop_best(self, start, goal);
            let cur = node.cell;
            let cur_idx = self.idx(cur);
            proof {
                reveal(closed_ok);
            }
            if cur_idx == goal_idx {
                proof {
                    lemma_sidx_injective(self.width, cur, goal);
                    assert forall|q: Seq<Cell>|
                        q.len() > 0 && #[trigger] self.is_walk(start, q) && q.last() == goal implies search.g@[sidx(
                            self.width,
                            goal,
                        )].unwrap() <= walk_cost(start, q) by {
                        lemma_popped_optimal(self, start, goal, before, node, q);
                    }
                }
                found = true;
                break;
            }
            if search.closed[cur_idx] {
                proof {
                    reveal(waiting);
                    reveal(waiting_except);
                }
                continue;
            }
            proof {
                if cur == goal {
                    lemma_sidx_injective(self.width, cur, goal);
                }
                assert forall|q: Seq<Cell>|
                    q.len() > 0 && #[trigger] self.is_walk(start, q) && q.last() == cur implies search.g@[sidx(
                        self.width,
                        cur,
                    )].unwrap() <= walk_cost(start, q) by {
                    lemma_popped_optimal(self, start, goal, before, node, q);
                }
            }
            search.expand(self, cur, start, goal);
        }
        if !found {
            proof {
                search.lemma_exhausted_unreachable(self, start, goal);
            }
            return Vec::new();
        }
        let path = search.trace_back(self, start, goal);
        proof {
            assert(self.is_cheapest(start, goal, path@));
        }
        path
    }

    proof fn lemma_walk_stays_discovered(
        &self,
        start: Cell,
        p: Seq<Cell>,
        g: Seq<Option<u64>>,
        closed: Seq<bool>,
        i: int,
    )
        requires
            self.wf(),
            self.in_grid(start),
            g.len() == self.grid@.len(),
            closed.len() == self.grid@.len(),
            closed[sidx(self.width, start)],
            self.is_walk(start, p),
            0 <= i < p.len(),
            forall|c: Cell|
                self.in_grid(c) && #[trigger] g[sidx(self.width, c)] is Some ==> closed[sidx(
                    self.width,
                    c,
                )],
            forall|c: Cell, n: Cell|
                self.in_grid(c) && #[trigger] closed[sidx(self.width, c)] && adjacent(c, n)
                    && #[trigger] self.passable(n) ==> g[sidx(self.width, n)] is Some,
        ensures
            g[sidx(self.width, p[i])] is Some,
        decreases i,
    {
        assert(self.passable(p[i]));
        if i == 0 {
            assert(adjacent(start, p[0]));
        } else {
            self.lemma_walk_stays_discovered(start, p, g, closed, i - 1);
            assert(self.passable(p[i - 1]));
            assert(adjacent(p[i - 1], p[i]));
        }
    }
}



/// State of one A* search over a grid: best known costs, parents, the closed
/// cells, the open list, and (for the proof) the order in which cells closed.
struct Search {
    g: Vec<Option<u64>>,
    came: Vec<Option<Cell>>,
    closed: Vec<bool>,
    open: Vec<OpenEntry>,
    n_closed: usize,
    order: Ghost<Seq<nat>>,
}

/// Every discovered cell that is not closed has an entry in the open list
/// whose estimate is its known cost plus its distance estimate to the goal.
#[verifier::opaque]
spec fn waiting(pf: &GridPathfinder, goal: Cell, g: Seq<Option<u64>>, closed: Seq<bool>, open: Seq<OpenEntry>) -> bool {
    forall|c: Cell|
        pf.in_grid(c) && (#[trigger] g[sidx(pf.width, c)]) is Some && !closed[sidx(pf.width, c)]
            ==> exists|j: int|
            0 <= j < open.len() && (#[trigger] open[j]).cell == c && open[j].f == g[sidx(pf.width, c)].unwrap()
                + octile_distance(c, goal)
}

/// The same, for every cell but `x`.
#[verifier::opaque]
spec fn waiting_except(
    pf: &GridPathfinder,
    goal: Cell,
    g: Seq<Option<u64>>,
    closed: Seq<bool>,
    open: Seq<OpenEntry>,
    x: Cell,
) -> bool {
    forall|c: Cell|
        pf.in_grid(c) && (#[trigger] g[sidx(pf.width, c)]) is Some && !closed[sidx(pf.width, c)]
            && c != x ==> exists|j: int|
            0 <= j < open.len() && (#[trigger] open[j]).cell == c && open[j].f == g[sidx(pf.width, c)].unwrap()
                + octile_distance(c, goal)
}

/// Every closed cell has all its passable neighbours discovered, and each
/// of them that is not closed costs at most the cell's cost plus the step.
#[verifier::opaque]
spec fn closure(pf: &GridPathfinder, g: Seq<Option<u64>>, closed: Seq<bool>) -> bool {
    forall|c: Cell, n: Cell|
        pf.in_grid(c) && #[trigger] closed[sidx(pf.width, c)] && adjacent(c, n) && #[trigger] pf.passable(n)
            ==> relaxed_from(pf, g, closed, c, n)
}

/// `n` is discovered and, unless closed, costs at most `c`'s cost plus the
/// step from `c`.
spec fn relaxed_from(pf: &GridPathfinder, g: Seq<Option<u64>>, closed: Seq<bool>, c: Cell, n: Cell) -> bool {
    &&& g[sidx(pf.width, n)] is Some
    &&& !closed[sidx(pf.width, n)] ==> g[sidx(pf.width, n)].unwrap() <= g[sidx(pf.width, c)].unwrap() + step_cost(c, n)
}

/// Open entries name discovered cells on the grid, with bounded estimates no
/// lower than the cell's known cost plus its distance estimate.
#[verifier::opaque]
spec fn entries_ok(pf: &GridPathfinder, goal: Cell, g: Seq<Option<u64>>, open: Seq<OpenEntry>) -> bool {
    forall|j: int|
        0 <= j < open.len() ==> pf.in_grid((#[trigger] open[j]).cell) && g[sidx(pf.width, open[j].cell)] is Some
            && open[j].f < F_BOUND && open[j].f >= g[sidx(pf.width, open[j].cell)].unwrap() + octile_distance(
            open[j].cell,
            goal,
        )
}

/// Every discovered cell but the start has a closed parent.
#[verifier::opaque]
spec fn parents_ok(
    pf: &GridPathfinder,
    start: Cell,
    g: Seq<Option<u64>>,
    came: Seq<Option<Cell>>,
    closed: Seq<bool>,
    order: Seq<nat>,
) -> bool {
    forall|c: Cell|
        pf.in_grid(c) && (#[trigger] g[sidx(pf.width, c)]) is Some && c != start
            ==> pf.has_closed_parent(came, closed, order, c)
}

/// Closed cells are discovered and closed before the count of closed cells.
#[verifier::opaque]
spec fn closed_ok(pf: &GridPathfinder, g: Seq<Option<u64>>, closed: Seq<bool>, order: Seq<nat>, n: nat) -> bool {
    forall|c: Cell|
        pf.in_grid(c) && #[trigger] closed[sidx(pf.width, c)] ==> g[sidx(pf.width, c)] is Some
            && order[sidx(pf.width, c)] < n
}

/// A bound on open-list estimates, far above any reachable cost.
const F_BOUND: u64 = 0x400_0000_0000_0000;

/// Known costs never exceed one diagonal step per closed cell.
#[verifier::opaque]
spec fn costs_bounded(pf: &GridPathfinder, g: Seq<Option<u64>>, n: nat) -> bool {
    forall|c: Cell|
        pf.in_grid(c) && (#[trigger] g[sidx(pf.width, c)]) is Some ==> g[sidx(pf.width, c)].unwrap() <= n
            * DIAGONAL_COST
}

/// The start costs nothing, and every other discovered cell costs what its
/// recorded parent costs plus the step from that parent.
#[verifier::opaque]
spec fn costs_sound(pf: &GridPathfinder, start: Cell, g: Seq<Option<u64>>, came: Seq<Option<Cell>>) -> bool {
    &&& g[sidx(pf.width, start)] == Some(0u64)
    &&& forall|c: Cell|
        pf.in_grid(c) && (#[trigger] g[sidx(pf.width, c)]) is Some && c != start ==> {
            &&& came[sidx(pf.width, c)] is Some
            &&& pf.in_grid(came[sidx(pf.width, c)].unwrap())
            &&& g[sidx(pf.width, came[sidx(pf.width, c)].unwrap())] is Some
            &&& g[sidx(pf.width, c)].unwrap() == g[sidx(pf.width, came[sidx(pf.width, c)].unwrap())].unwrap()
                + step_cost(came[sidx(pf.width, c)].unwrap(), c)
        }
}

/// While the start is not closed it is the only discovered cell.
#[verifier::opaque]
spec fn start_first(pf: &GridPathfinder, start: Cell, g: Seq<Option<u64>>, closed: Seq<bool>) -> bool {
    !closed[sidx(pf.width, start)] ==> forall|c: Cell|
        pf.in_grid(c) && (#[trigger] g[sidx(pf.width, c)]) is Some ==> c == start
}

/// The known cost of every closed cell is the least cost of any walk from
/// the start to it.
#[verifier::opaque]
spec fn closed_optimal(pf: &GridPathfinder, start: Cell, g: Seq<Option<u64>>, closed: Seq<bool>) -> bool {
    forall|c: Cell, q: Seq<Cell>|
        pf.in_grid(c) && #[trigger] closed[sidx(pf.width, c)] && q.len() > 0 && #[trigger] pf.is_walk(start, q)
            && q.last() == c ==> g[sidx(pf.width, c)].unwrap() <= walk_cost(start, q)
}

spec fn closed_set(closed: Seq<bool>) -> Set<int> {
    Set::new(|j: int| 0 <= j < closed.len() && closed[j])
}


/// Lowering the known cost of the open neighbour `nb` of the closed cell
/// `cur` to `ng`, with `cur` as its parent and a fresh open entry, keeps the
/// search's invariants.
#[verifier::rlimit(40)]
proof fn lemma_relax_step(
    pf: &GridPathfinder,
    start: Cell,
    goal: Cell,
    before: Search,
    after: Search,
    cur: Cell,
    gcur: u64,
    nb: Cell,
    ng: u64,
)
    requires
        pf.wf(),
        grid_indexing(pf.width, pf.height),
        pf.in_grid(start),
        pf.in_grid(goal),
        pf.in_grid(cur),
        adjacent(cur, nb),
        pf.passable(nb),
        before.closed@[sidx(pf.width, cur)],
        !before.closed@[sidx(pf.width, nb)],
        before.g@[sidx(pf.width, cur)] == Some(gcur),
        gcur + DIAGONAL_COST <= before.n_closed * DIAGONAL_COST,
        ng == gcur + step_cost(cur, nb),
        before.g@[sidx(pf.width, nb)] is Some ==> ng < before.g@[sidx(pf.width, nb)].unwrap(),
        before.core_inv(pf, start, goal),
        waiting(pf, goal, before.g@, before.closed@, before.open@),
        after.g@ == before.g@.update(sidx(pf.width, nb), Some(ng)),
        after.came@ == before.came@.update(sidx(pf.width, nb), Some(cur)),
        after.closed@ == before.closed@,
        after.order@ == before.order@,
        after.n_closed == before.n_closed,
        after.open@ == before.open@.push(OpenEntry { f: (ng + octile_distance(nb, goal)) as u64, cell: nb }),
    ensures
        after.core_inv(pf, start, goal),
        waiting(pf, goal, after.g@, after.closed@, after.open@),
{
    let w = pf.width;
    assert(nb != cur);
    assert forall|c: Cell| pf.in_grid(c) && c != nb implies #[trigger] after.g@[sidx(w, c)] == before.g@[sidx(w, c)]
        && after.came@[sidx(w, c)] == before.came@[sidx(w, c)] by {}
    assert(waiting(pf, goal, after.g@, after.closed@, after.open@)) by {
        reveal(waiting);
        assert forall|c: Cell|
            pf.in_grid(c) && (#[trigger] after.g@[sidx(w, c)]) is Some && !after.closed@[sidx(w, c)] implies exists|j: int|
            0 <= j < after.open@.len() && (#[trigger] after.open@[j]).cell == c && after.open@[j].f == after.g@[sidx(
                w,
                c,
            )].unwrap() + octile_distance(c, goal) by {
            if c == nb {
                assert(after.open@[after.open@.len() - 1].cell == c);
            } else {
                let j0 = choose|j: int|
                    0 <= j < before.open@.len() && (#[trigger] before.open@[j]).cell == c && before.open@[j].f
                        == before.g@[sidx(w, c)].unwrap() + octile_distance(c, goal);
                assert(after.open@[j0] == before.open@[j0]);
            }
        }
    }
    assert(entries_ok(pf, goal, after.g@, after.open@)) by {
        reveal(entries_ok);
        reveal(costs_bounded);
        assert forall|j: int| 0 <= j < after.open@.len() implies pf.in_grid((#[trigger] after.open@[j]).cell)
            && after.g@[sidx(w, after.open@[j].cell)] is Some && after.open@[j].f < F_BOUND && after.open@[j].f
            >= after.g@[sidx(w, after.open@[j].cell)].unwrap() + octile_distance(after.open@[j].cell, goal) by {
            if j < before.open@.len() {
                assert(after.open@[j] == before.open@[j]);
            }
        }
    }
    assert(closed_ok(pf, after.g@, after.closed@, after.order@, after.n_closed as nat)) by {
        reveal(closed_ok);
    }
    assert(costs_bounded(pf, after.g@, after.n_closed as nat)) by {
        reveal(costs_bounded);
    }
    assert(!before.closed@[sidx(w, start)] ==> cur == start) by {
        reveal(start_first);
        reveal(closed_ok);
    }
    assert(nb != start);
    assert(start_first(pf, start, after.g@, after.closed@)) by {
        reveal(start_first);
    }
    assert(closed_optimal(pf, start, after.g@, after.closed@)) by {
        reveal(closed_optimal);
        assert forall|c: Cell, q: Seq<Cell>|
            pf.in_grid(c) && #[trigger] after.closed@[sidx(w, c)] && q.len() > 0 && #[trigger] pf.is_walk(start, q)
                && q.last() == c implies after.g@[sidx(w, c)].unwrap() <= walk_cost(start, q) by {
            assert(c != nb);
        }
    }
    assert(costs_sound(pf, start, after.g@, after.came@)) by {
        reveal(costs_sound);
        reveal(parents_ok);
        reveal(closed_ok);
        assert forall|c: Cell| pf.in_grid(c) && (#[trigger] after.g@[sidx(w, c)]) is Some && c != start implies {
            &&& after.came@[sidx(w, c)] is Some
            &&& pf.in_grid(after.came@[sidx(w, c)].unwrap())
            &&& after.g@[sidx(w, after.came@[sidx(w, c)].unwrap())] is Some
            &&& after.g@[sidx(w, c)].unwrap() == after.g@[sidx(w, after.came@[sidx(w, c)].unwrap())].unwrap()
                + step_cost(after.came@[sidx(w, c)].unwrap(), c)
        } by {
            if c != nb {
                let p = before.came@[sidx(w, c)].unwrap();
                assert(pf.has_closed_parent(before.came@, before.closed@, before.order@, c));
                assert(before.closed@[sidx(w, p)]);
                assert(p != nb);
            }
        }
    }
    assert(parents_ok(pf, start, after.g@, after.came@, after.closed@, after.order@)) by {
        reveal(parents_ok);
        assert forall|c: Cell|
            pf.in_grid(c) && (#[trigger] after.g@[sidx(w, c)]) is Some && c != start implies pf.has_closed_parent(
            after.came@,
            after.closed@,
            after.order@,
            c,
        ) by {
            if c != nb {
                assert(pf.has_closed_parent(before.came@, before.closed@, before.order@, c));
            }
        }
    }
}


/// The cell of an open entry with the least estimate is reached no more
/// cheaply by any walk than its known cost: a walk to it leaves the closed
/// cells somewhere, and the estimate there (consistent, as the octile
/// distance is) bounds the walk's cost from below.
#[verifier::rlimit(40)]
proof fn lemma_popped_optimal(pf: &GridPathfinder, start: Cell, goal: Cell, before: Search, e: OpenEntry, q: Seq<Cell>)
    requires
        pf.wf(),
        grid_indexing(pf.width, pf.height),
        pf.in_grid(start),
        before.core_inv(pf, start, goal),
        waiting(pf, goal, before.g@, before.closed@, before.open@),
        closure(pf, before.g@, before.closed@),
        exists|i: int| 0 <= i < before.open@.len() && before.open@[i] == e,
        forall|j: int| 0 <= j < before.open@.len() ==> e.f <= (#[trigger] before.open@[j]).f,
        !before.closed@[sidx(pf.width, e.cell)],
        q.len() > 0,
        pf.is_walk(start, q),
        q.last() == e.cell,
    ensures
        before.g@[sidx(pf.width, e.cell)].unwrap() <= walk_cost(start, q),
{
    let w = pf.width;
    let c = e.cell;
    let g = before.g@;
    let closed = before.closed@;
    reveal(entries_ok);
    let i0 = choose|i: int| 0 <= i < before.open@.len() && before.open@[i] == e;
    assert(pf.in_grid(before.open@[i0].cell));
    assert(g[sidx(w, c)] is Some);
    assert(e.f >= g[sidx(w, c)].unwrap() + octile_distance(c, goal));
    lemma_walk_cost_nonneg(start, q);
    if !closed[sidx(w, start)] {
        reveal(start_first);
        reveal(costs_sound);
        assert(c == start);
    } else {
        let p = |x: Cell| !closed[sidx(w, x)];
        lemma_first_index_some(q, p);
        assert(p(q[q.len() - 1]));
        let i = first_index(q, p)->0;
        assert(is_first(q, p, i));
        let n = q[i];
        let head = q.take(i);
        let head1 = q.take(i + 1);
        let prev = walk_end(start, head);
        assert(pf.passable(n));
        assert(adjacent(prev, n)) by {
            if i > 0 {
                assert(head.last() == q[i - 1]);
            }
        }
        assert(closed[sidx(w, prev)]) by {
            if i > 0 {
                assert(head.last() == q[i - 1]);
                assert(!p(q[i - 1]));
            }
        }
        assert(pf.in_grid(prev));
        reveal(closure);
        assert(relaxed_from(pf, g, closed, prev, n));
        lemma_walk_parts(pf, start, q, i);
        assert(g[sidx(w, prev)].unwrap() <= walk_cost(start, head)) by {
            if i == 0 {
                reveal(costs_sound);
            } else {
                reveal(closed_optimal);
                assert(head.len() > 0 && pf.is_walk(start, head) && head.last() == prev);
            }
        }
        assert(head1.drop_last() =~= head);
        assert(head1.last() == n);
        assert(walk_cost(start, head1) == walk_cost(start, head) + step_cost(prev, n));
        reveal(waiting);
        let j = choose|j: int|
            0 <= j < before.open@.len() && (#[trigger] before.open@[j]).cell == n && before.open@[j].f == g[sidx(
                w,
                n,
            )].unwrap() + octile_distance(n, goal);
        let rest = q.skip(i + 1);
        lemma_walk_parts(pf, start, q, i + 1);
        assert(walk_end(start, head1) == n);
        lemma_octile_along_walk(pf, n, rest, goal);
        assert(walk_end(n, rest) == c) by {
            if rest.len() > 0 {
                assert(rest.last() == q.last());
            } else {
                assert(i + 1 == q.len());
            }
        }
        lemma_walk_cost_split(start, q, i + 1);
    }
}


/// What the invariants say of the recorded parent of a discovered cell.
proof fn lemma_parent_of(pf: &GridPathfinder, start: Cell, goal: Cell, s: Search, c: Cell)
    requires
        pf.wf(),
        s.core_inv(pf, start, goal),
        pf.in_grid(c),
        s.g@[sidx(pf.width, c)] is Some,
        c != start,
    ensures
        s.came@[sidx(pf.width, c)] is Some,
        pf.in_grid(s.came@[sidx(pf.width, c)].unwrap()),
        s.closed@[sidx(pf.width, s.came@[sidx(pf.width, c)].unwrap())],
        adjacent(s.came@[sidx(pf.width, c)].unwrap(), c),
        pf.passable(c),
        s.closed@[sidx(pf.width, c)] ==> s.order@[sidx(pf.width, s.came@[sidx(pf.width, c)].unwrap())] < s.order@[sidx(
            pf.width,
            c,
        )],
        s.g@[sidx(pf.width, s.came@[sidx(pf.width, c)].unwrap())] is Some,
        s.g@[sidx(pf.width, c)].unwrap() == s.g@[sidx(pf.width, s.came@[sidx(pf.width, c)].unwrap())].unwrap()
            + step_cost(s.came@[sidx(pf.width, c)].unwrap(), c),
{
    reveal(parents_ok);
    reveal(costs_sound);
    assert(pf.has_closed_parent(s.came@, s.closed@, s.order@, c));
}

impl Search {
    /// Everything the search keeps true, except the two properties (`waiting`
    /// and `closure`) that an expansion breaks for a moment.
    spec fn core_inv(&self, pf: &GridPathfinder, start: Cell, goal: Cell) -> bool {
        let total = pf.grid@.len();
        &&& self.g@.len() == total
        &&& self.came@.len() == total
        &&& self.closed@.len() == total
        &&& self.order@.len() == total
        &&& closed_set(self.closed@).finite()
        &&& closed_set(self.closed@).len() == self.n_closed
        &&& self.n_closed <= total
        &&& self.g@[sidx(pf.width, start)] is Some
        &&& !self.closed@[sidx(pf.width, goal)]
        &&& costs_sound(pf, start, self.g@, self.came@)
        &&& start_first(pf, start, self.g@, self.closed@)
        &&& closed_optimal(pf, start, self.g@, self.closed@)
        &&& entries_ok(pf, goal, self.g@, self.open@)
        &&& closed_ok(pf, self.g@, self.closed@, self.order@, self.n_closed as nat)
        &&& costs_bounded(pf, self.g@, self.n_closed as nat)
        &&& parents_ok(pf, start, self.g@, self.came@, self.closed@, self.order@)
    }

    /// The search with only `start` discovered and waiting.
    fn start(pf: &GridPathfinder, start: Cell, goal: Cell) -> (s: Self)
        requires
            pf.wf(),
            grid_indexing(pf.width, pf.height),
            pf.in_grid(start),
            pf.in_grid(goal),
            start != goal,
        ensures
            s.core_inv(pf, start, goal),
            waiting(pf, goal, s.g@, s.closed@, s.open@),
            closure(pf, s.g@, s.closed@),
            s.open@.len() > 0,
            s.n_closed == 0,
    {
        let total: usize = pf.grid.len();
        let mut g: Vec<Option<u64>> = Vec::new();
        let mut came: Vec<Option<Cell>> = Vec::new();
        let mut closed: Vec<bool> = Vec::new();
        let mut i: usize = 0;
        while i < total
            invariant
                i <= total,
                g@.len() == i,
                came@.len() == i,
                closed@.len() == i,
                forall|j: int| 0 <= j < i ==> g@[j] is None,
                forall|j: int| 0 <= j < i ==> came@[j] is None,
                forall|j: int| 0 <= j < i ==> !closed@[j],
            decreases total - i,
        {
            g.push(None);
            came.push(None);
            closed.push(false);
            i = i + 1;
        }
        let start_idx = pf.idx(start);
        g.set(start_idx, Some(0u64));
        let h0 = octile_exec(start, goal);
        let mut open: Vec<OpenEntry> = Vec::new();
        open.push(OpenEntry { f: h0, cell: start });
        let s = Search {
            g,
            came,
            closed,
            open,
            n_closed: 0,
            order: Ghost(Seq::new(total as nat, |j: int| 0nat)),
        };
        proof {
            let w = pf.width;
            assert(closed_set(s.closed@) =~= Set::<int>::empty());
            assert forall|c: Cell| pf.in_grid(c) && (#[trigger] s.g@[sidx(w, c)]) is Some implies c
                == start by {}
            reveal(waiting);
            reveal(closure);
            reveal(entries_ok);
            reveal(parents_ok);
            reveal(closed_ok);
            reveal(costs_bounded);
            reveal(costs_sound);
            reveal(start_first);
            reveal(closed_optimal);
            assert(s.open@[0].cell == start);
        }
        s
    }

    /// Removes and returns the open entry with the least estimate (the first
    /// such entry in the list).
    fn pop_best(&mut self, pf: &GridPathfinder, start: Cell, goal: Cell) -> (e: OpenEntry)
        requires
            pf.wf(),
            grid_indexing(pf.width, pf.height),
            old(self).core_inv(pf, start, goal),
            waiting(pf, goal, old(self).g@, old(self).closed@, old(self).open@),
            old(self).open@.len() > 0,
        ensures
            final(self).core_inv(pf, start, goal),
            final(self).n_closed == old(self).n_closed,
            final(self).open@.len() == old(self).open@.len() - 1,
            final(self).g@ == old(self).g@,
            final(self).came@ == old(self).came@,
            final(self).closed@ == old(self).closed@,
            final(self).order@ == old(self).order@,
            pf.in_grid(e.cell),
            final(self).g@[sidx(pf.width, e.cell)] is Some,
            waiting_except(pf, goal, final(self).g@, final(self).closed@, final(self).open@, e.cell),
            exists|i: int| 0 <= i < old(self).open@.len() && old(self).open@[i] == e,
            forall|j: int| 0 <= j < old(self).open@.len() ==> e.f <= (#[trigger] old(self).open@[j]).f,
    {
        let mut best: usize = 0;
        let mut k: usize = 1;
        proof {
            reveal(entries_ok);
        }
        while k < self.open.len()
            invariant
                1 <= k <= self.open@.len(),
                best < self.open@.len(),
                forall|j: int| 0 <= j < k ==> self.open@[best as int].f <= (#[trigger] self.open@[j]).f,
            decreases self.open@.len() - k,
        {
            if self.open[k].f < self.open[best].f {
                best = k;
            }
            k = k + 1;
        }
        let ghost before = self.open@;
        let e = self.open.remove(best);
        proof {
            let w = pf.width;
            assert(before[best as int] == e);
            reveal(waiting);
            reveal(waiting_except);
            assert forall|c: Cell|
                pf.in_grid(c) && (#[trigger] self.g@[sidx(w, c)]) is Some && !self.closed@[sidx(
                    w,
                    c,
                )] && c != e.cell implies exists|j: int|
                0 <= j < self.open@.len() && (#[trigger] self.open@[j]).cell == c && self.open@[j].f == self.g@[sidx(
                    w,
                    c,
                )].unwrap() + octile_distance(c, goal) by {
                let j0 = choose|j: int|
                    0 <= j < before.len() && (#[trigger] before[j]).cell == c && before[j].f == self.g@[sidx(w, c)].unwrap()
                        + octile_distance(c, goal);
                if j0 < best {
                    assert(self.open@[j0] == before[j0]);
                } else {
                    assert(self.open@[j0 - 1] == before[j0]);
                }
            }
            assert forall|j: int| 0 <= j < self.open@.len() implies pf.in_grid(
                (#[trigger] self.open@[j]).cell,
            ) && self.g@[sidx(w, self.open@[j].cell)] is Some && self.open@[j].f < F_BOUND && self.open@[j].f
                >= self.g@[sidx(w, self.open@[j].cell)].unwrap() + octile_distance(self.open@[j].cell, goal) by {
                if j < best {
                    assert(self.open@[j] == before[j]);
                } else {
                    assert(self.open@[j] == before[j + 1]);
                }
            }
        }
        e
    }

    /// Marks `cur` closed, the next in closing order.
    fn close(&mut self, pf: &GridPathfinder, cur: Cell, start: Cell, goal: Cell)
        requires
            pf.wf(),
            grid_indexing(pf.width, pf.height),
            pf.in_grid(start),
            pf.in_grid(goal),
            old(self).core_inv(pf, start, goal),
            closure(pf, old(self).g@, old(self).closed@),
            pf.in_grid(cur),
            cur != goal,
            old(self).g@[sidx(pf.width, cur)] is Some,
            !old(self).closed@[sidx(pf.width, cur)],
            waiting_except(pf, goal, old(self).g@, old(self).closed@, old(self).open@, cur),
            forall|q: Seq<Cell>|
                q.len() > 0 && #[trigger] pf.is_walk(start, q) && q.last() == cur ==> old(self).g@[sidx(
                    pf.width,
                    cur,
                )].unwrap() <= walk_cost(start, q),
        ensures
            final(self).core_inv(pf, start, goal),
            final(self).n_closed == old(self).n_closed + 1,
            final(self).g@ == old(self).g@,
            final(self).open@ == old(self).open@,
            final(self).closed@ == old(self).closed@.update(sidx(pf.width, cur), true),
            waiting(pf, goal, final(self).g@, final(self).closed@, final(self).open@),
            forall|c: Cell, n: Cell|
                pf.in_grid(c) && #[trigger] final(self).closed@[sidx(pf.width, c)] && c != cur
                    && adjacent(c, n) && #[trigger] pf.passable(n) ==> relaxed_from(
                    pf,
                    final(self).g@,
                    final(self).closed@,
                    c,
                    n,
                ),
    {
        let w = pf.width;
        let cur_idx = pf.idx(cur);
        let ghost before = *self;
        self.closed.set(cur_idx, true);
        proof {
            let total = pf.grid@.len() as int;
            self.order@ = self.order@.update(cur_idx as int, self.n_closed as nat);
            assert(closed_set(self.closed@) =~= closed_set(before.closed@).insert(cur_idx as int));
            assert(!closed_set(before.closed@).contains(cur_idx as int));
            assert(closed_set(self.closed@).subset_of(set_int_range(0, total)));
            lemma_int_range(0, total);
            lemma_len_subset(closed_set(self.closed@), set_int_range(0, total));
        }
        self.n_closed = self.n_closed + 1;
        proof {
            assert forall|c: Cell| pf.in_grid(c) && c != cur implies #[trigger] self.closed@[sidx(w, c)]
                == before.closed@[sidx(w, c)] && self.order@[sidx(w, c)] == before.order@[sidx(
                w,
                c,
            )] by {}
            assert(closed_ok(pf, self.g@, self.closed@, self.order@, self.n_closed as nat)) by {
                reveal(closed_ok);
            }
            assert(costs_bounded(pf, self.g@, self.n_closed as nat)) by {
                reveal(costs_bounded);
            }
            assert(parents_ok(pf, start, self.g@, self.came@, self.closed@, self.order@)) by {
                reveal(parents_ok);
                reveal(closed_ok);
                assert forall|c: Cell|
                    pf.in_grid(c) && (#[trigger] self.g@[sidx(w, c)]) is Some && c != start implies pf.has_closed_parent(
                    self.came@,
                    self.closed@,
                    self.order@,
                    c,
                ) by {
                    assert(pf.has_closed_parent(before.came@, before.closed@, before.order@, c));
                    let p = self.came@[sidx(w, c)].unwrap();
                    assert(before.closed@[sidx(w, p)]);
                }
            }
            assert(waiting(pf, goal, self.g@, self.closed@, self.open@)) by {
                reveal(waiting);
                reveal(waiting_except);
            }
            assert(start_first(pf, start, self.g@, self.closed@)) by {
                reveal(start_first);
                if !self.closed@[sidx(w, start)] {
                    assert(cur != start);
                    assert(!before.closed@[sidx(w, start)]);
                }
            }
            assert(closed_optimal(pf, start, self.g@, self.closed@)) by {
                reveal(closed_optimal);
                assert forall|c: Cell, q: Seq<Cell>|
                    pf.in_grid(c) && #[trigger] self.closed@[sidx(w, c)] && q.len() > 0 && #[trigger] pf.is_walk(start, q)
                        && q.last() == c implies self.g@[sidx(w, c)].unwrap() <= walk_cost(start, q) by {
                    if c != cur {
                        assert(before.closed@[sidx(w, c)]);
                    }
                }
            }
            assert forall|c: Cell, n: Cell|
                pf.in_grid(c) && #[trigger] self.closed@[sidx(pf.width, c)] && c != cur
                    && adjacent(c, n) && #[trigger] pf.passable(n) implies relaxed_from(
                pf,
                self.g@,
                self.closed@,
                c,
                n,
            ) by {
                reveal(closure);
                assert(before.closed@[sidx(pf.width, c)]);
                assert(relaxed_from(pf, before.g@, before.closed@, c, n));
            }
        }
    }

    /// Closes `cur` and relaxes its passable, unclosed neighbours.
    fn expand(&mut self, pf: &GridPathfinder, cur: Cell, start: Cell, goal: Cell)
        requires
            pf.wf(),
            grid_indexing(pf.width, pf.height),
            pf.in_grid(start),
            pf.in_grid(goal),
            old(self).core_inv(pf, start, goal),
            closure(pf, old(self).g@, old(self).closed@),
            pf.in_grid(cur),
            cur != goal,
            old(self).g@[sidx(pf.width, cur)] is Some,
            !old(self).closed@[sidx(pf.width, cur)],
            waiting_except(pf, goal, old(self).g@, old(self).closed@, old(self).open@, cur),
            forall|q: Seq<Cell>|
                q.len() > 0 && #[trigger] pf.is_walk(start, q) && q.last() == cur ==> old(self).g@[sidx(
                    pf.width,
                    cur,
                )].unwrap() <= walk_cost(start, q),
        ensures
            final(self).core_inv(pf, start, goal),
            waiting(pf, goal, final(self).g@, final(self).closed@, final(self).open@),
            closure(pf, final(self).g@, final(self).closed@),
            final(self).n_closed == old(self).n_closed + 1,
    {
        let w = pf.width;
        let cur_idx = pf.idx(cur);
        let gcur = self.g[cur_idx].unwrap();
        proof {
            reveal(costs_bounded);
        }
        self.close(pf, cur, start, goal);
        let ghost n_after = self.n_closed;
        let mut d: usize = 0;
        while d < 8
            invariant
                pf.wf(),
                grid_indexing(w, pf.height),
                w == pf.width,
                pf.in_grid(start),
                pf.in_grid(goal),
                pf.in_grid(cur),
                cur != goal,
                cur_idx as int == sidx(w, cur),
                self.closed@[cur_idx as int],
                self.g@[cur_idx as int] == Some(gcur),
                gcur + DIAGONAL_COST <= self.n_closed * DIAGONAL_COST,
                self.n_closed == n_after,
                d <= 8,
                self.core_inv(pf, start, goal),
                waiting(pf, goal, self.g@, self.closed@, self.open@),
                forall|c: Cell, n: Cell|
                    pf.in_grid(c) && #[trigger] self.closed@[sidx(w, c)] && c != cur && adjacent(
                        c,
                        n,
                    ) && #[trigger] pf.passable(n) ==> relaxed_from(pf, self.g@, self.closed@, c, n),
                forall|k: int, n: Cell|
                    0 <= k < d && n.0 as int == cur.0 as int + dir(k).0 && n.1 as int == cur.1 as int
                        + (#[trigger] dir(k)).1 && #[trigger] pf.passable(n) ==> relaxed_from(
                        pf,
                        self.g@,
                        self.closed@,
                        cur,
                        n,
                    ),
            decreases 8 - d,
        {
            let ghost before = *self;
            self.relax(pf, cur, gcur, d, start, goal);
            proof {
                assert forall|c: Cell, n: Cell|
                    pf.in_grid(c) && #[trigger] self.closed@[sidx(w, c)] && c != cur && adjacent(c, n)
                        && #[trigger] pf.passable(n) implies relaxed_from(pf, self.g@, self.closed@, c, n) by {
                    assert(before.closed@[sidx(w, c)]);
                    assert(relaxed_from(pf, before.g@, before.closed@, c, n));
                }
                assert forall|k: int, n: Cell|
                    0 <= k < d + 1 && n.0 as int == cur.0 as int + dir(k).0 && n.1 as int == cur.1 as int
                        + (#[trigger] dir(k)).1 && #[trigger] pf.passable(n) implies relaxed_from(
                    pf,
                    self.g@,
                    self.closed@,
                    cur,
                    n,
                ) by {
                    if k < d {
                        assert(relaxed_from(pf, before.g@, before.closed@, cur, n));
                    }
                }
            }
            d = d + 1;
        }
        proof {
            reveal(closure);
            assert forall|c: Cell, n: Cell|
                pf.in_grid(c) && #[trigger] self.closed@[sidx(w, c)] && adjacent(c, n)
                    && #[trigger] pf.passable(n) implies relaxed_from(pf, self.g@, self.closed@, c, n) by {
                if c == cur {
                    lemma_adjacent_is_some_dir(c, n);
                }
            }
        }
    }

    /// Relaxes the neighbour of `cur` in direction `d`.
    fn relax(&mut self, pf: &GridPathfinder, cur: Cell, gcur: u64, d: usize, start: Cell, goal: Cell)
        requires
            pf.wf(),
            grid_indexing(pf.width, pf.height),
            pf.in_grid(start),
            pf.in_grid(goal),
            pf.in_grid(cur),
            cur != goal,
            d < 8,
            old(self).closed@[sidx(pf.width, cur)],
            old(self).g@[sidx(pf.width, cur)] == Some(gcur),
            gcur + DIAGONAL_COST <= old(self).n_closed * DIAGONAL_COST,
            old(self).core_inv(pf, start, goal),
            waiting(pf, goal, old(self).g@, old(self).closed@, old(self).open@),
        ensures
            final(self).core_inv(pf, start, goal),
            waiting(pf, goal, final(self).g@, final(self).closed@, final(self).open@),
            final(self).n_closed == old(self).n_closed,
            final(self).closed@ == old(self).closed@,
            final(self).g@[sidx(pf.width, cur)] == Some(gcur),
            forall|c: Cell|
                pf.in_grid(c) && (#[trigger] old(self).g@[sidx(pf.width, c)]) is Some ==> final(self).g@[sidx(
                    pf.width,
                    c,
                )] is Some && final(self).g@[sidx(pf.width, c)].unwrap() <= old(self).g@[sidx(pf.width, c)].unwrap(),
            forall|c: Cell|
                pf.in_grid(c) && #[trigger] old(self).closed@[sidx(pf.width, c)] ==> final(self).g@[sidx(pf.width, c)]
                    == old(self).g@[sidx(pf.width, c)],
            forall|n: Cell|
                n.0 as int == cur.0 as int + dir(d as int).0 && n.1 as int == cur.1 as int + dir(
                    d as int,
                ).1 && #[trigger] pf.passable(n) ==> relaxed_from(pf, final(self).g@, final(self).closed@, cur, n),
    {
        let w = pf.width;
        let h = pf.height;
        let (dx, dy) = dir_exec(d);
        let nx: i64 = cur.0 as i64 + dx;
        let ny: i64 = cur.1 as i64 + dy;
        if nx < 0 || ny < 0 || nx >= w as i64 || ny >= h as i64 {
            return;
        }
        let nb: Cell = (nx as u32, ny as u32);
        let ni = pf.idx(nb);
        if !pf.grid[ni] {
            return;
        }
        if self.closed[ni] {
            proof {
                reveal(closed_ok);
                assert(relaxed_from(pf, self.g@, self.closed@, cur, nb));
            }
            return;
        }
        let ng: u64 = if dx != 0 && dy != 0 {
            gcur + DIAGONAL_COST
        } else {
            gcur + STRAIGHT_COST
        };
        let improves = match self.g[ni] {
            None => true,
            Some(old_g) => {
                proof {
                    reveal(costs_bounded);
                }
                ng < old_g
            },
        };
        proof {
            assert(ng == gcur + step_cost(cur, nb));
        }
        if !improves {
            proof {
                assert(relaxed_from(pf, self.g@, self.closed@, cur, nb));
            }
            return;
        }
        let ghost before = *self;
        self.g.set(ni, Some(ng));
        self.came.set(ni, Some(cur));
        let hn = octile_exec(nb, goal);
        self.open.push(OpenEntry { f: ng + hn, cell: nb });
        proof {
            assert(adjacent(cur, nb));
            lemma_relax_step(pf, start, goal, before, *self, cur, gcur, nb, ng);
            assert(relaxed_from(pf, self.g@, self.closed@, cur, nb));
            assert forall|c: Cell| pf.in_grid(c) && c != nb implies #[trigger] self.g@[sidx(w, c)] == before.g@[sidx(
                w,
                c,
            )] by {}
            assert forall|c: Cell| pf.in_grid(c) && #[trigger] before.closed@[sidx(w, c)] implies c != nb by {}
        }
    }

    /// When the open list runs dry without reaching the goal, no walk from
    /// the start reaches it.
    proof fn lemma_exhausted_unreachable(&self, pf: &GridPathfinder, start: Cell, goal: Cell)
        requires
            pf.wf(),
            grid_indexing(pf.width, pf.height),
            pf.in_grid(start),
            pf.in_grid(goal),
            self.core_inv(pf, start, goal),
            waiting(pf, goal, self.g@, self.closed@, self.open@),
            closure(pf, self.g@, self.closed@),
            self.open@.len() == 0,
        ensures
            !pf.reachable(start, goal),
    {
        reveal(waiting);
        reveal(closure);
        let w = pf.width;
        assert forall|c: Cell| pf.in_grid(c) && #[trigger] self.g@[sidx(w, c)] is Some implies self.closed@[sidx(
            w,
            c,
        )] by {
            if !self.closed@[sidx(w, c)] {
                let j = choose|j: int| 0 <= j < self.open@.len() && (#[trigger] self.open@[j]).cell == c;
            }
        }
        assert(self.g@[sidx(w, goal)] is None);
        assert forall|p: Seq<Cell>| p.len() > 0 && #[trigger] pf.is_walk(start, p) implies p.last()
            != goal by {
            pf.lemma_walk_stays_discovered(start, p, self.g@, self.closed@, (p.len() - 1) as int);
        }
    }

    /// Follows the recorded parents back from the goal and returns the walk
    /// from `start` to `goal`, in walking order.
    #[verifier::rlimit(40)]
    fn trace_back(&self, pf: &GridPathfinder, start: Cell, goal: Cell) -> (path: Vec<Cell>)
        requires
            pf.wf(),
            grid_indexing(pf.width, pf.height),
            pf.in_grid(start),
            pf.passable(goal),
            start != goal,
            self.core_inv(pf, start, goal),
            self.g@[sidx(pf.width, goal)] is Some,
        ensures
            path@.len() > 0,
            pf.is_walk(start, path@),
            path@.last() == goal,
            walk_cost(start, path@) == self.g@[sidx(pf.width, goal)].unwrap(),
    {
        let w = pf.width;
        let goal_idx = pf.idx(goal);
        let mut rev: Vec<Cell> = Vec::new();
        rev.push(goal);
        proof {
            reveal(parents_ok);
            reveal(closed_ok);
            reveal(costs_sound);
            assert(pf.has_closed_parent(self.came@, self.closed@, self.order@, goal));
        }
        let mut cur: Cell = self.came[goal_idx].unwrap();
        proof {
            assert(rev@.reverse() =~= seq![goal]);
            lemma_walk_cost_single(cur, goal);
        }
        while !(cur.0 == start.0 && cur.1 == start.1)
            invariant
                pf.wf(),
                grid_indexing(pf.width, pf.height),
                w == pf.width,
                self.core_inv(pf, start, goal),
                pf.in_grid(cur),
                self.closed@[sidx(w, cur)],
                rev@.len() >= 1,
                rev@[0] == goal,
                adjacent(cur, rev@.last()),
                forall|i: int| 0 <= i < rev@.len() ==> pf.passable(#[trigger] rev@[i]),
                forall|i: int| 0 < i < rev@.len() ==> adjacent(#[trigger] rev@[i], rev@[i - 1]),
                self.g@[sidx(w, cur)] is Some,
                walk_cost(cur, rev@.reverse()) + self.g@[sidx(w, cur)].unwrap() == self.g@[sidx(w, goal)].unwrap(),
            decreases self.order@[sidx(w, cur)],
        {
            let ci = pf.idx(cur);
            proof {
                lemma_parent_of(pf, start, goal, *self, cur);
            }
            let parent = self.came[ci].unwrap();
            let ghost old_rev = rev@;
            rev.push(cur);
            proof {
                assert(rev@.reverse() =~= seq![cur] + old_rev.reverse());
                lemma_walk_cost_prepend(parent, cur, old_rev.reverse());
            }
            cur = parent;
        }
        let n = rev.len();
        let mut path: Vec<Cell> = Vec::new();
        let mut j: usize = 0;
        while j < n
            invariant
                n == rev@.len(),
                j <= n,
                path@.len() == j,
                forall|i: int| 0 <= i < j ==> path@[i] == rev@[n - 1 - i],
            decreases n - j,
        {
            path.push(rev[n - 1 - j]);
            j = j + 1;
        }
        proof {
            assert forall|i: int| 0 <= i < path@.len() implies pf.passable(#[trigger] path@[i])
                && adjacent(
                if i == 0 {
                    start
                } else {
                    path@[i - 1]
                },
                path@[i],
            ) by {
                assert(path@[i] == rev@[n - 1 - i]);
                if i > 0 {
                    assert(path@[i - 1] == rev@[n - i]);
                }
            }
            assert(path@.last() == rev@[0]);
            assert(path@ =~= rev@.reverse());
            reveal(costs_sound);
        }
        path
    }
}

} // verus!
