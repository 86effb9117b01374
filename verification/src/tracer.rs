//! The beam tracer: a single traversal from one entry beam state to a fixed
//! point, over an explicit frontier with a per-cell, per-direction visited
//! record. The visited record bounds the work, so every traversal terminates;
//! the result is pinned to the set of beam-reachable positions.

use vstd::prelude::*;
use vstd::arithmetic::div_mod::lemma_fundamental_div_mod_converse;
use crate::grid::{Grid, Direction, CellType, Position, BeamState, spec_outgoing, outgoing};

verus! {

/// A set of directions, one membership bit per direction.
#[derive(Clone, Copy, PartialEq, Eq, Structural, Debug)]
pub struct DirSet {
    pub up: bool,
    pub down: bool,
    pub left: bool,
    pub right: bool,
}

impl DirSet {
    pub open spec fn spec_contains(self, d: Direction) -> bool {
        match d {
            Direction::Up => self.up,
            Direction::Down => self.down,
            Direction::Left => self.left,
            Direction::Right => self.right,
        }
    }

    pub open spec fn spec_insert(self, d: Direction) -> DirSet {
        match d {
            Direction::Up => DirSet { up: true, ..self },
            Direction::Down => DirSet { down: true, ..self },
            Direction::Left => DirSet { left: true, ..self },
            Direction::Right => DirSet { right: true, ..self },
        }
    }

    /// How many directions are in the set, between 0 and 4.
    pub open spec fn count(self) -> int {
        (if self.up {
            1int
        } else {
            0int
        }) + (if self.down {
            1int
        } else {
            0int
        }) + (if self.left {
            1int
        } else {
            0int
        }) + (if self.right {
            1int
        } else {
            0int
        })
    }

    pub open spec fn nonempty(self) -> bool {
        self.up || self.down || self.left || self.right
    }

    pub fn empty() -> (r: DirSet)
        ensures
            r.count() == 0,
            forall|d: Direction| !r.spec_contains(d),
            !r.nonempty(),
    {
        DirSet { up: false, down: false, left: false, right: false }
    }

    pub fn contains(&self, d: Direction) -> (r: bool)
        ensures
            r == self.spec_contains(d),
    {
        match d {
            Direction::Up => self.up,
            Direction::Down => self.down,
            Direction::Left => self.left,
            Direction::Right => self.right,
        }
    }

    pub fn insert(self, d: Direction) -> (r: DirSet)
        ensures
            r == self.spec_insert(d),
            r.spec_contains(d),
            forall|d2: Direction| self.spec_contains(d2) ==> r.spec_contains(d2),
            !self.spec_contains(d) ==> r.count() == self.count() + 1,
            r.nonempty(),
    {
        match d {
            Direction::Up => DirSet { up: true, ..self },
            Direction::Down => DirSet { down: true, ..self },
            Direction::Left => DirSet { left: true, ..self },
            Direction::Right => DirSet { right: true, ..self },
        }
    }
}

// ---------------------------------------------------------------------------
// Counting over the flat per-cell records
// ---------------------------------------------------------------------------

/// The number of `true` marks among the first `n` entries.
pub open spec fn count_true(m: Seq<bool>, n: int) -> int
    decreases n,
{
    if n <= 0 {
        0
    } else {
        count_true(m, n - 1) + if m[n - 1] {
            1int
        } else {
            0int
        }
    }
}

/// The number of visited (cell, direction) pairs among the first `n` cells.
pub open spec fn count_vis(v: Seq<DirSet>, n: int) -> int
    decreases n,
{
    if n <= 0 {
        0
    } else {
        count_vis(v, n - 1) + v[n - 1].count()
    }
}

pub proof fn lemma_count_true_bounds(m: Seq<bool>, n: int)
    ensures
        0 <= count_true(m, n) <= if n >= 0 {
            n
        } else {
            0
        },
    decreases n,
{
    if n > 0 {
        lemma_count_true_bounds(m, n - 1);
    }
}

pub proof fn lemma_count_vis_bounds(v: Seq<DirSet>, n: int)
    ensures
        0 <= count_vis(v, n) <= if n >= 0 {
            4 * n
        } else {
            0
        },
    decreases n,
{
    if n > 0 {
        lemma_count_vis_bounds(v, n - 1);
    }
}

pub proof fn lemma_count_true_update(m: Seq<bool>, n: int, j: int, b: bool)
    requires
        0 <= j < n <= m.len(),
    ensures
        count_true(m.update(j, b), n) == count_true(m, n) + (if b {
            1int
        } else {
            0int
        }) - (if m[j] {
            1int
        } else {
            0int
        }),
    decreases n,
{
    let m2 = m.update(j, b);
    if j == n - 1 {
        assert(forall|k: int| 0 <= k < n - 1 ==> m2[k] == m[k]);
        lemma_count_true_agree(m, m2, n - 1);
    } else {
        lemma_count_true_update(m, n - 1, j, b);
    }
}

pub proof fn lemma_count_vis_update(v: Seq<DirSet>, n: int, j: int, d: DirSet)
    requires
        0 <= j < n <= v.len(),
    ensures
        count_vis(v.update(j, d), n) == count_vis(v, n) + d.count() - v[j].count(),
    decreases n,
{
    let v2 = v.update(j, d);
    if j == n - 1 {
        assert(forall|k: int| 0 <= k < n - 1 ==> v2[k] == v[k]);
        lemma_count_vis_agree(v, v2, n - 1);
    } else {
        lemma_count_vis_update(v, n - 1, j, d);
    }
}

/// Counts over a prefix depend only on that prefix.
pub proof fn lemma_count_true_agree(a: Seq<bool>, b: Seq<bool>, n: int)
    requires
        forall|k: int| 0 <= k < n ==> a[k] == b[k],
    ensures
        count_true(a, n) == count_true(b, n),
    decreases n,
{
    if n > 0 {
        lemma_count_true_agree(a, b, n - 1);
    }
}

pub proof fn lemma_count_vis_agree(a: Seq<DirSet>, b: Seq<DirSet>, n: int)
    requires
        forall|k: int| 0 <= k < n ==> a[k] == b[k],
    ensures
        count_vis(a, n) == count_vis(b, n),
    decreases n,
{
    if n > 0 {
        lemma_count_vis_agree(a, b, n - 1);
    }
}

// ---------------------------------------------------------------------------
// The step relation and reachability
// ---------------------------------------------------------------------------

/// One traversal step: from a beam state within bounds to the state reached by
/// following one of the cell's outgoing directions to a neighboring cell.
pub open spec fn step_rel(g: Grid, a: BeamState, b: BeamState) -> bool {
    &&& g.in_bounds(a.pos)
    &&& exists|k: int|
        {
            &&& 0 <= k < spec_outgoing(g.cell(a.pos.row as int, a.pos.col as int), a.dir).len()
            &&& b.dir == #[trigger] spec_outgoing(g.cell(a.pos.row as int, a.pos.col as int), a.dir)[k]
            &&& g.spec_neighbor(a.pos, b.dir) == Some(b.pos)
        }
}

/// A path is a nonempty sequence of beam states where each step follows the
/// step relation.
pub open spec fn is_path(g: Grid, p: Seq<BeamState>) -> bool {
    p.len() > 0 && forall|i: int| 0 <= i < p.len() - 1 ==> step_rel(g, #[trigger] p[i], p[i + 1])
}

/// A beam state is reachable from the entry if some path connects them.
pub open spec fn reachable(g: Grid, entry: BeamState, b: BeamState) -> bool {
    exists|p: Seq<BeamState>| is_path(g, p) && p[0] == entry && p.last() == b
}

/// A position is energized when some beam direction reaches it.
pub open spec fn pos_energized(g: Grid, entry: BeamState, pos: Position) -> bool {
    exists|d: Direction| reachable(g, entry, BeamState { pos, dir: d })
}

/// The flat cell index of a position, row-major.
pub open spec fn flat_idx(g: Grid, p: Position) -> int {
    p.row * g.cols() + p.col
}

/// The position a flat cell index stands for.
pub open spec fn pos_of(g: Grid, j: int) -> Position {
    Position { row: (j / g.cols()) as usize, col: (j % g.cols()) as usize }
}

/// The number of energized positions among the first `n` cells, row-major.
pub open spec fn flat_energized_count(g: Grid, entry: BeamState, n: int) -> int
    decreases n,
{
    if n <= 0 {
        0
    } else {
        flat_energized_count(g, entry, n - 1) + if pos_energized(g, entry, pos_of(g, n - 1)) {
            1int
        } else {
            0int
        }
    }
}

/// The energized-cell count of a traversal from `entry`: how many grid
/// positions some beam reaches.
pub open spec fn spec_energized_count(g: Grid, entry: BeamState) -> int {
    flat_energized_count(g, entry, g.rows() * g.cols())
}

pub proof fn lemma_idx_pos(g: Grid, p: Position)
    requires
        g.wf(),
        g.in_bounds(p),
    ensures
        0 <= flat_idx(g, p) < g.rows() * g.cols(),
        pos_of(g, flat_idx(g, p)) == p,
{
    let rows = g.rows();
    let cols = g.cols();
    assert(p.row * cols + p.col < rows * cols) by (nonlinear_arith)
        requires
            0 <= p.row < rows,
            0 <= p.col < cols,
    ;
    lemma_fundamental_div_mod_converse(flat_idx(g, p), cols, p.row as int, p.col as int);
}

pub proof fn lemma_pos_idx(g: Grid, j: int)
    requires
        g.wf(),
        0 <= j < g.rows() * g.cols(),
    ensures
        g.in_bounds(pos_of(g, j)),
        flat_idx(g, pos_of(g, j)) == j,
{
    let rows = g.rows();
    let cols = g.cols();
    let q = j / cols;
    let r = j % cols;
    vstd::arithmetic::div_mod::lemma_fundamental_div_mod(j, cols);
    vstd::arithmetic::div_mod::lemma_mod_bound(j, cols);
    assert(q < rows) by (nonlinear_arith)
        requires
            j == q * cols + r,
            0 <= r < cols,
            0 <= j < rows * cols,
            cols > 0,
    ;
    assert(q >= 0) by (nonlinear_arith)
        requires
            j == q * cols + r,
            0 <= r < cols,
            j >= 0,
            cols > 0,
    ;
}

/// Reachability extends along a step.
pub proof fn lemma_reachable_step(g: Grid, entry: BeamState, a: BeamState, b: BeamState)
    requires
        reachable(g, entry, a),
        step_rel(g, a, b),
    ensures
        reachable(g, entry, b),
{
    let p = choose|p: Seq<BeamState>| is_path(g, p) && p[0] == entry && p.last() == a;
    let p2 = p.push(b);
    assert(p2.last() == b);
    assert(p2[0] == entry);
    assert(forall|i: int| 0 <= i < p.len() - 1 ==> #[trigger] p2[i] == p[i] && p2[i + 1] == p[i
        + 1]);
    assert(p2[p.len() - 1] == a && p2[p.len() as int] == b);
    assert(is_path(g, p2));
}

// ---------------------------------------------------------------------------
// The traversal machine
// ---------------------------------------------------------------------------

/// Membership of a beam state in a sequence.
pub open spec fn seq_has(s: Seq<BeamState>, b: BeamState) -> bool {
    exists|k: int| 0 <= k < s.len() && s[k] == b
}

/// Membership survives extending a sequence at the end.
proof fn lemma_seq_has_grow(a: Seq<BeamState>, c: Seq<BeamState>, b: BeamState)
    requires
        a.len() <= c.len(),
        forall|m: int| 0 <= m < a.len() ==> #[trigger] c[m] == a[m],
        seq_has(a, b),
    ensures
        seq_has(c, b),
{
    let m = choose|m: int| 0 <= m < a.len() && a[m] == b;
    assert(c[m] == b);
}

/// One traversal's owned state: the frontier of beam states not yet processed,
/// the visited record over (cell, direction) pairs, and the energized marks
/// over cells, with their count.
pub struct Traversal {
    pub frontier: Vec<BeamState>,
    pub visited: Vec<DirSet>,
    pub energized: Vec<bool>,
    pub energized_count: usize,
    pub entry: Ghost<BeamState>,
}

impl Traversal {
    /// A beam state already recorded as visited.
    pub open spec fn visited_contains(self, g: Grid, b: BeamState) -> bool {
        g.in_bounds(b.pos) && self.visited@[flat_idx(g, b.pos)].spec_contains(b.dir)
    }

    /// A beam state waiting on the frontier.
    pub open spec fn frontier_contains(self, b: BeamState) -> bool {
        seq_has(self.frontier@, b)
    }

    /// The traversal invariant against its grid.
    pub open spec fn wf(self, g: Grid) -> bool {
        let n = g.rows() * g.cols();
        &&& g.wf()
        &&& g.in_bounds(self.entry@.pos)
        &&& self.visited@.len() == n
        &&& self.energized@.len() == n
        &&& self.energized_count == count_true(self.energized@, n)
        // a cell is marked energized exactly when some direction visited it
        &&& forall|j: int| 0 <= j < n ==> self.energized@[j] == (#[trigger] self.visited@[j]).nonempty()
        // visited states are reachable
        &&& forall|j: int, d: Direction|
            0 <= j < n && #[trigger] self.visited@[j].spec_contains(d) ==> reachable(
                g,
                self.entry@,
                BeamState { pos: pos_of(g, j), dir: d },
            )
        // frontier states are within bounds and reachable
        &&& forall|k: int|
            0 <= k < self.frontier@.len() ==> g.in_bounds((#[trigger] self.frontier@[k]).pos)
                && reachable(g, self.entry@, self.frontier@[k])
        // every successor of a visited state is visited or on the frontier
        &&& forall|j: int, d: Direction, b2: BeamState|
            0 <= j < n && #[trigger] self.visited@[j].spec_contains(d) && #[trigger] step_rel(
                g,
                BeamState { pos: pos_of(g, j), dir: d },
                b2,
            ) ==> self.visited_contains(g, b2) || self.frontier_contains(b2)
        // the entry has been seen
        &&& self.visited_contains(g, self.entry@) || self.frontier_contains(self.entry@)
    }

    /// The termination measure: unvisited (cell, direction) pairs weigh three,
    /// frontier entries one.
    pub open spec fn measure(self, g: Grid) -> int {
        let n = g.rows() * g.cols();
        3 * (4 * n - count_vis(self.visited@, n)) + self.frontier@.len()
    }

    /// A fresh traversal: empty visited and energized records, the entry alone
    /// on the frontier.
    pub fn new(g: &Grid, entry: BeamState) -> (t: Traversal)
        requires
            g.wf(),
            g.in_bounds(entry.pos),
        ensures
            t.wf(*g),
            t.entry@ == entry,
            t.energized_count == 0,
            count_vis(t.visited@, g.rows() * g.cols()) == 0,
            t.frontier@ == seq![entry],
    {
        let rows = g.num_rows();
        let cols = g.num_cols();
        let n: usize = rows * cols;
        let mut visited: Vec<DirSet> = Vec::new();
        let mut energized: Vec<bool> = Vec::new();
        let mut i: usize = 0;
        while i < n
            invariant
                i <= n,
                visited@.len() == i,
                energized@.len() == i,
                forall|j: int| 0 <= j < i ==> (#[trigger] visited@[j]).count() == 0,
                forall|j: int| 0 <= j < i ==> !(#[trigger] visited@[j]).nonempty(),
                forall|j: int| 0 <= j < i ==> !(#[trigger] energized@[j]),
            decreases n - i,
        {
            visited.push(DirSet::empty());
            energized.push(false);
            i = i + 1;
        }
        let mut frontier: Vec<BeamState> = Vec::new();
        frontier.push(entry);
        let t = Traversal {
            frontier,
            visited,
            energized,
            energized_count: 0,
            entry: Ghost(entry),
        };
        proof {
            let nn = g.rows() * g.cols();
            lemma_count_zero(t.visited@, t.energized@, nn);
            let pw = seq![entry];
            assert(is_path(*g, pw) && pw[0] == entry && pw.last() == entry);
            assert(reachable(*g, entry, entry));
            assert(t.frontier@[0] == entry);
            assert(t.frontier_contains(entry));
            assert(t.wf(*g));
        }
        t
    }
}

/// All-empty records count zero.
proof fn lemma_count_zero(v: Seq<DirSet>, m: Seq<bool>, n: int)
    requires
        forall|j: int| 0 <= j < n ==> (#[trigger] v[j]).count() == 0,
        forall|j: int| 0 <= j < n ==> !(#[trigger] m[j]),
    ensures
        count_vis(v, n) == 0,
        count_true(m, n) == 0,
    decreases n,
{
    if n > 0 {
        lemma_count_zero(v, m, n - 1);
    }
}

/// With a known-false entry, the count over a prefix is strictly below the
/// prefix length.
pub proof fn lemma_count_true_lt(m: Seq<bool>, n: int, j: int)
    requires
        0 <= j < n <= m.len(),
        !m[j],
    ensures
        count_true(m, n) <= n - 1,
    decreases n,
{
    lemma_count_true_bounds(m, n - 1);
    if j < n - 1 {
        lemma_count_true_lt(m, n - 1, j);
    }
}

impl Traversal {
    /// The already-visited branch of a step keeps the invariant: the popped
    /// state is recorded, and anything it owed is still owed by that record.
    #[verifier::rlimit(100)]
    #[verifier::spinoff_prover]
    proof fn lemma_step_skip_wf(g: Grid, t0: Traversal, t1: Traversal, b: BeamState)
        requires
            t0.wf(g),
            t0.frontier@.len() > 0,
            b == t0.frontier@[t0.frontier@.len() - 1],
            t0.visited_contains(g, b),
            t1.visited == t0.visited,
            t1.energized == t0.energized,
            t1.energized_count == t0.energized_count,
            t1.entry == t0.entry,
            t1.frontier@ == t0.frontier@.subrange(0, t0.frontier@.len() - 1),
        ensures
            t1.wf(g),
    {
        let n = g.rows() * g.cols();
        let fr0 = t0.frontier@;
        assert forall|m: int| 0 <= m < t1.frontier@.len() implies g.in_bounds(
            (#[trigger] t1.frontier@[m]).pos,
        ) && reachable(g, t1.entry@, t1.frontier@[m]) by {
            assert(t1.frontier@[m] == fr0[m]);
        }
        assert forall|j2: int, d2: Direction, b2: BeamState|
            0 <= j2 < n && #[trigger] t1.visited@[j2].spec_contains(d2) && #[trigger] step_rel(
                g,
                BeamState { pos: pos_of(g, j2), dir: d2 },
                b2,
            ) implies t1.visited_contains(g, b2) || t1.frontier_contains(b2) by {
            assert(t0.visited_contains(g, b2) || t0.frontier_contains(b2));
            if !t0.visited_contains(g, b2) {
                let m = choose|m: int| 0 <= m < fr0.len() && fr0[m] == b2;
                if m < fr0.len() - 1 {
                    assert(t1.frontier@[m] == b2);
                    assert(t1.frontier_contains(b2));
                } else {
                    assert(b2 == b);
                }
            }
        }
        if !t0.visited_contains(g, t0.entry@) {
            let m = choose|m: int| 0 <= m < fr0.len() && fr0[m] == t0.entry@;
            if m < fr0.len() - 1 {
                assert(t1.frontier@[m] == t1.entry@);
                assert(t1.frontier_contains(t1.entry@));
            } else {
                assert(t1.entry@ == b);
            }
        }
    }

    /// How a visiting step reshapes the traversal: the popped state `b` is
    /// newly recorded at cell `j`, the cell is marked, the frontier keeps its
    /// remaining entries, gains only in-bounds reachable states, and holds
    /// every successor of `b`.
    spec fn visit_shape(g: Grid, t0: Traversal, t1: Traversal, b: BeamState, j: int) -> bool {
        &&& t0.wf(g)
        &&& t0.frontier@.len() > 0
        &&& b == t0.frontier@[t0.frontier@.len() - 1]
        &&& g.in_bounds(b.pos)
        &&& j == flat_idx(g, b.pos)
        &&& t1.entry == t0.entry
        &&& t1.visited@ == t0.visited@.update(j, t0.visited@[j].spec_insert(b.dir))
        &&& t1.energized@ == t0.energized@.update(j, true)
        &&& t1.energized_count == count_true(t1.energized@, g.rows() * g.cols())
        &&& t1.frontier@.len() >= t0.frontier@.len() - 1
        &&& (forall|m: int|
            0 <= m < t0.frontier@.len() - 1 ==> #[trigger] t1.frontier@[m] == t0.frontier@[m])
        &&& (forall|m: int|
            t0.frontier@.len() - 1 <= m < t1.frontier@.len() ==> g.in_bounds(
                (#[trigger] t1.frontier@[m]).pos,
            ) && reachable(g, t0.entry@, t1.frontier@[m]))
        &&& (forall|k2: int|
            0 <= k2 < spec_outgoing(g.cell(b.pos.row as int, b.pos.col as int), b.dir).len()
                && (#[trigger] g.spec_neighbor(
                b.pos,
                spec_outgoing(g.cell(b.pos.row as int, b.pos.col as int), b.dir)[k2],
            )) is Some ==> seq_has(
                t1.frontier@,
                BeamState {
                    pos: g.spec_neighbor(
                        b.pos,
                        spec_outgoing(g.cell(b.pos.row as int, b.pos.col as int), b.dir)[k2],
                    )->Some_0,
                    dir: spec_outgoing(g.cell(b.pos.row as int, b.pos.col as int), b.dir)[k2],
                },
            ))
    }

    /// Every successor of the freshly visited state waits on the frontier.
    #[verifier::spinoff_prover]
    proof fn lemma_step_visit_new(g: Grid, t1: Traversal, b: BeamState)
        requires
            g.wf(),
            g.in_bounds(b.pos),
            forall|k2: int|
                0 <= k2 < spec_outgoing(g.cell(b.pos.row as int, b.pos.col as int), b.dir).len()
                    && (#[trigger] g.spec_neighbor(
                    b.pos,
                    spec_outgoing(g.cell(b.pos.row as int, b.pos.col as int), b.dir)[k2],
                )) is Some ==> seq_has(
                    t1.frontier@,
                    BeamState {
                        pos: g.spec_neighbor(
                            b.pos,
                            spec_outgoing(g.cell(b.pos.row as int, b.pos.col as int), b.dir)[k2],
                        )->Some_0,
                        dir: spec_outgoing(g.cell(b.pos.row as int, b.pos.col as int), b.dir)[k2],
                    },
                ),
        ensures
            forall|b2: BeamState| #[trigger] step_rel(g, b, b2) ==> t1.frontier_contains(b2),
    {
        assert forall|b2: BeamState| #[trigger] step_rel(g, b, b2) implies t1.frontier_contains(
            b2,
        ) by {
            let k2 = choose|k2: int|
                0 <= k2 < spec_outgoing(
                    g.cell(b.pos.row as int, b.pos.col as int),
                    b.dir,
                ).len() && b2.dir == spec_outgoing(
                    g.cell(b.pos.row as int, b.pos.col as int),
                    b.dir,
                )[k2] && g.spec_neighbor(b.pos, b2.dir) == Some(b2.pos);
            assert(g.spec_neighbor(
                b.pos,
                spec_outgoing(g.cell(b.pos.row as int, b.pos.col as int), b.dir)[k2],
            ) is Some);
            assert(seq_has(
                t1.frontier@,
                BeamState {
                    pos: g.spec_neighbor(
                        b.pos,
                        spec_outgoing(g.cell(b.pos.row as int, b.pos.col as int), b.dir)[k2],
                    )->Some_0,
                    dir: spec_outgoing(g.cell(b.pos.row as int, b.pos.col as int), b.dir)[k2],
                },
            ));
            assert(BeamState {
                pos: g.spec_neighbor(
                    b.pos,
                    spec_outgoing(g.cell(b.pos.row as int, b.pos.col as int), b.dir)[k2],
                )->Some_0,
                dir: spec_outgoing(g.cell(b.pos.row as int, b.pos.col as int), b.dir)[k2],
            } == b2);
        }
    }

    /// What states visited before the step owed, they still owe after it.
    #[verifier::spinoff_prover]
    proof fn lemma_step_visit_old(g: Grid, t0: Traversal, t1: Traversal, b: BeamState, j: int)
        requires
            t0.wf(g),
            t0.frontier@.len() > 0,
            b == t0.frontier@[t0.frontier@.len() - 1],
            g.in_bounds(b.pos),
            j == flat_idx(g, b.pos),
            t1.visited@ == t0.visited@.update(j, t0.visited@[j].spec_insert(b.dir)),
            t1.frontier@.len() >= t0.frontier@.len() - 1,
            forall|m: int|
                0 <= m < t0.frontier@.len() - 1 ==> #[trigger] t1.frontier@[m] == t0.frontier@[m],
        ensures
            forall|j2: int, d2: Direction, b2: BeamState|
                0 <= j2 < g.rows() * g.cols() && #[trigger] t0.visited@[j2].spec_contains(d2)
                    && #[trigger] step_rel(
                    g,
                    BeamState { pos: pos_of(g, j2), dir: d2 },
                    b2,
                ) ==> t1.visited_contains(g, b2) || t1.frontier_contains(b2),
    {
        let n = g.rows() * g.cols();
        let fr0 = t0.frontier@;
        let vis0 = t0.visited@;
        lemma_idx_pos(g, b.pos);
        assert forall|j2: int, d2: Direction, b2: BeamState|
            0 <= j2 < n && #[trigger] vis0[j2].spec_contains(d2) && #[trigger] step_rel(
                g,
                BeamState { pos: pos_of(g, j2), dir: d2 },
                b2,
            ) implies t1.visited_contains(g, b2) || t1.frontier_contains(b2) by {
            assert(t0.visited_contains(g, b2) || t0.frontier_contains(b2));
            if t0.visited_contains(g, b2) {
                lemma_idx_pos(g, b2.pos);
                let i2 = flat_idx(g, b2.pos);
                if i2 == j {
                    assert(t1.visited@[i2].spec_contains(b2.dir));
                } else {
                    assert(t1.visited@[i2] == vis0[i2]);
                }
                assert(t1.visited_contains(g, b2));
            } else {
                let m = choose|m: int| 0 <= m < fr0.len() && fr0[m] == b2;
                if m < fr0.len() - 1 {
                    assert(t1.frontier@[m] == fr0[m]);
                    assert(t1.frontier_contains(b2));
                } else {
                    assert(b2 == b);
                    assert(t1.visited@[j].spec_contains(b.dir));
                    assert(t1.visited_contains(g, b2));
                }
            }
        }
    }

    /// After a visiting step, every successor of a visited state is visited or
    /// on the frontier.
    #[verifier::rlimit(100)]
    #[verifier::spinoff_prover]
    proof fn lemma_step_visit_closure(g: Grid, t0: Traversal, t1: Traversal, b: BeamState, j: int)
        requires
            Self::visit_shape(g, t0, t1, b, j),
        ensures
            forall|j2: int, d2: Direction, b2: BeamState|
                0 <= j2 < g.rows() * g.cols() && #[trigger] t1.visited@[j2].spec_contains(d2)
                    && #[trigger] step_rel(
                    g,
                    BeamState { pos: pos_of(g, j2), dir: d2 },
                    b2,
                ) ==> t1.visited_contains(g, b2) || t1.frontier_contains(b2),
    {
        let n = g.rows() * g.cols();
        let vis0 = t0.visited@;
        lemma_idx_pos(g, b.pos);
        Self::lemma_step_visit_new(g, t1, b);
        Self::lemma_step_visit_old(g, t0, t1, b, j);
        assert forall|j2: int, d2: Direction, b2: BeamState|
            0 <= j2 < n && #[trigger] t1.visited@[j2].spec_contains(d2) && #[trigger] step_rel(
                g,
                BeamState { pos: pos_of(g, j2), dir: d2 },
                b2,
            ) implies t1.visited_contains(g, b2) || t1.frontier_contains(b2) by {
            if vis0[j2].spec_contains(d2) {
                assert(t1.visited_contains(g, b2) || t1.frontier_contains(b2));
            } else {
                assert(j2 == j && d2 == b.dir);
                assert(BeamState { pos: pos_of(g, j2), dir: d2 } == b);
                assert(step_rel(g, b, b2));
                assert(t1.frontier_contains(b2));
            }
        }
    }

    /// The visiting branch of a step keeps the invariant.
    #[verifier::rlimit(100)]
    #[verifier::spinoff_prover]
    proof fn lemma_step_visit_wf(g: Grid, t0: Traversal, t1: Traversal, b: BeamState, j: int)
        requires
            Self::visit_shape(g, t0, t1, b, j),
        ensures
            t1.wf(g),
    {
        let n = g.rows() * g.cols();
        let fr0 = t0.frontier@;
        let vis0 = t0.visited@;
        lemma_idx_pos(g, b.pos);
        assert(g.in_bounds(b.pos) && reachable(g, t0.entry@, b));
        assert(t1.visited@[j].spec_contains(b.dir));
        assert(t1.visited_contains(g, b));
        assert forall|j2: int| 0 <= j2 < n implies t1.energized@[j2] == (
        #[trigger] t1.visited@[j2]).nonempty() by {
            if j2 != j {
                assert(t1.visited@[j2] == vis0[j2]);
                assert(t1.energized@[j2] == t0.energized@[j2]);
            }
        }
        assert forall|j2: int, d2: Direction|
            0 <= j2 < n && #[trigger] t1.visited@[j2].spec_contains(d2) implies reachable(
            g,
            t1.entry@,
            BeamState { pos: pos_of(g, j2), dir: d2 },
        ) by {
            if j2 == j && !vis0[j2].spec_contains(d2) {
                assert(d2 == b.dir);
                assert(pos_of(g, j2) == b.pos);
            } else {
                assert(vis0[j2].spec_contains(d2));
            }
        }
        assert forall|m: int| 0 <= m < t1.frontier@.len() implies g.in_bounds(
            (#[trigger] t1.frontier@[m]).pos,
        ) && reachable(g, t1.entry@, t1.frontier@[m]) by {
            if m < fr0.len() - 1 {
                assert(t1.frontier@[m] == fr0[m]);
            }
        }
        Self::lemma_step_visit_closure(g, t0, t1, b, j);
        if t0.visited_contains(g, t0.entry@) {
            lemma_idx_pos(g, t0.entry@.pos);
            let i2 = flat_idx(g, t0.entry@.pos);
            if i2 == j {
                assert(t1.visited@[i2].spec_contains(t0.entry@.dir));
            } else {
                assert(t1.visited@[i2] == vis0[i2]);
            }
            assert(t1.visited_contains(g, t1.entry@));
        } else {
            let m = choose|m: int| 0 <= m < fr0.len() && fr0[m] == t0.entry@;
            if m < fr0.len() - 1 {
                assert(t1.frontier@[m] == fr0[m]);
                assert(t1.frontier_contains(t1.entry@));
            } else {
                assert(t0.entry@ == b);
                assert(t1.visited_contains(g, t1.entry@));
            }
        }
    }
    /// One traversal step: remove one beam state from the frontier; if it was
    /// already visited, discard it, otherwise record it as visited, energize
    /// its position, and put its successor states on the frontier.
    ///
    /// The energized marks only grow and their count never decreases: no step
    /// removes a previously energized cell. The measure shrinks with every
    /// step, which bounds the traversal.
    pub fn step(&mut self, g: &Grid)
        requires
            old(self).wf(*g),
            old(self).frontier@.len() > 0,
        ensures
            final(self).wf(*g),
            final(self).entry == old(self).entry,
            final(self).energized@.len() == old(self).energized@.len(),
            forall|j: int|
                0 <= j < old(self).energized@.len() && old(self).energized@[j]
                    ==> final(self).energized@[j],
            old(self).energized_count <= final(self).energized_count,
            final(self).measure(*g) < old(self).measure(*g),
    {
        let ghost n = g.rows() * g.cols();
        let ghost t0 = *old(self);
        let ghost fr0 = old(self).frontier@;
        let bo = self.frontier.pop();
        let b = bo.unwrap();
        proof {
            assert(b == fr0[fr0.len() - 1]);
            assert(g.in_bounds(b.pos) && reachable(*g, self.entry@, b));
            lemma_idx_pos(*g, b.pos);
        }
        let cols = g.num_cols();
        let j = b.pos.row * cols + b.pos.col;
        proof {
            assert(j == flat_idx(*g, b.pos));
            assert(pos_of(*g, j as int) == b.pos);
            assert(0 <= j < n);
        }
        let ds = self.visited[j];
        if ds.contains(b.dir) {
            proof {
                assert(t0.visited_contains(*g, b));
                Self::lemma_step_skip_wf(*g, t0, *self, b);
            }
            return;
        }
        let ds2 = ds.insert(b.dir);
        let ghost vis0 = self.visited@;
        let slot = &mut self.visited[j];
        *slot = ds2;
        proof {
            lemma_count_vis_update(vis0, n, j as int, ds2);
        }
        let ghost marks0 = self.energized@;
        let e0 = self.energized[j];
        proof {
            if !e0 {
                lemma_count_true_lt(marks0, n, j as int);
            }
            lemma_count_true_update(marks0, n, j as int, true);
        }
        let mslot = &mut self.energized[j];
        *mslot = true;
        if !e0 {
            self.energized_count = self.energized_count + 1;
        }
        let ghost fr1 = self.frontier@;
        let ghost marks1 = self.energized@;
        let ghost ec1 = self.energized_count;
        let cell = g.cell_at(b.pos);
        let outs = outgoing(cell, b.dir);
        let ghost outss = spec_outgoing(g.cell(b.pos.row as int, b.pos.col as int), b.dir);
        let mut k: usize = 0;
        while k < outs.len()
            invariant
                k <= outs@.len(),
                outs@ == outss,
                outss == spec_outgoing(g.cell(b.pos.row as int, b.pos.col as int), b.dir),
                g.wf(),
                g.in_bounds(b.pos),
                fr1.len() <= self.frontier@.len() <= fr1.len() + k,
                forall|m: int| 0 <= m < fr1.len() ==> #[trigger] self.frontier@[m] == fr1[m],
                forall|m: int|
                    fr1.len() <= m < self.frontier@.len() ==> g.in_bounds(
                        (#[trigger] self.frontier@[m]).pos,
                    ) && reachable(*g, self.entry@, self.frontier@[m]),
                forall|k2: int|
                    0 <= k2 < k && (#[trigger] g.spec_neighbor(b.pos, outss[k2])) is Some
                        ==> seq_has(
                        self.frontier@,
                        BeamState {
                            pos: g.spec_neighbor(b.pos, outss[k2])->Some_0,
                            dir: outss[k2],
                        },
                    ),
                reachable(*g, self.entry@, b),
                self.entry == old(self).entry,
                self.visited@ == vis0.update(j as int, ds2),
                self.energized@ == marks1,
                self.energized_count == ec1,
            decreases outs@.len() - k,
        {
            let d2 = outs[k];
            proof {
                assert(d2 == spec_outgoing(
                    g.cell(b.pos.row as int, b.pos.col as int),
                    b.dir,
                )[k as int]);
            }
            match g.neighbor(b.pos, d2) {
                Some(p2) => {
                    let b2 = BeamState { pos: p2, dir: d2 };
                    proof {
                        assert((k as int) < spec_outgoing(
                            g.cell(b.pos.row as int, b.pos.col as int),
                            b.dir,
                        ).len());
                        assert(b2.dir == spec_outgoing(
                            g.cell(b.pos.row as int, b.pos.col as int),
                            b.dir,
                        )[k as int]);
                        assert(g.spec_neighbor(b.pos, b2.dir) == Some(b2.pos));
                        assert(step_rel(*g, b, b2));
                        lemma_reachable_step(*g, self.entry@, b, b2);
                    }
                    let ghost frp = self.frontier@;
                    self.frontier.push(b2);
                    proof {
                        assert(self.frontier@[frp.len() as int] == b2);
                        assert forall|k2: int|
                            0 <= k2 < k + 1 && (#[trigger] g.spec_neighbor(b.pos, outss[k2]))
                                is Some implies seq_has(
                                self.frontier@,
                                BeamState {
                                    pos: g.spec_neighbor(b.pos, outss[k2])->Some_0,
                                    dir: outss[k2],
                                },
                            ) by {
                            let q2 = g.spec_neighbor(b.pos, outss[k2])->Some_0;
                            let bb = BeamState { pos: q2, dir: outss[k2] };
                            if k2 < k {
                                assert(seq_has(frp, bb));
                                lemma_seq_has_grow(frp, self.frontier@, bb);
                            } else {
                                assert(q2 == p2 && outss[k2] == d2);
                                assert(self.frontier@[frp.len() as int] == bb);
                            }
                        }
                    }
                },
                None => {
                    proof {
                        assert forall|k2: int|
                            0 <= k2 < k + 1 && (#[trigger] g.spec_neighbor(b.pos, outss[k2]))
                                is Some implies seq_has(
                                self.frontier@,
                                BeamState {
                                    pos: g.spec_neighbor(b.pos, outss[k2])->Some_0,
                                    dir: outss[k2],
                                },
                            ) by {
                            assert(k2 < k);
                        }
                    }
                },
            }
            k = k + 1;
        }
        proof {
            assert(self.energized@ =~= marks0.update(j as int, true));
            Self::lemma_step_visit_wf(*g, t0, *self, b, j as int);
            assert(count_vis(self.visited@, n) == count_vis(vis0, n) + 1);
            assert(self.frontier@.len() <= fr0.len() - 1 + 2);
        }
    }


    /// Drains the frontier to the fixed point. Termination is bounded by the
    /// measure: unvisited (cell, direction) pairs and waiting frontier states.
    pub fn run(&mut self, g: &Grid)
        requires
            old(self).wf(*g),
        ensures
            final(self).wf(*g),
            final(self).frontier@.len() == 0,
            final(self).entry == old(self).entry,
    {
        loop
            invariant
                self.wf(*g),
                self.entry == old(self).entry,
            ensures
                self.wf(*g),
                self.frontier@.len() == 0,
                self.entry == old(self).entry,
            decreases self.measure(*g),
        {
            proof {
                lemma_count_vis_bounds(self.visited@, g.rows() * g.cols());
            }
            if self.frontier.len() == 0 {
                break;
            }
            self.step(g);
            proof {
                lemma_count_vis_bounds(self.visited@, g.rows() * g.cols());
            }
        }
    }
}

/// Once the frontier is drained, every beam state on a path from the entry has
/// been visited.
proof fn lemma_path_visited(g: Grid, t: Traversal, p: Seq<BeamState>)
    requires
        t.wf(g),
        t.frontier@.len() == 0,
        is_path(g, p),
        p[0] == t.entry@,
    ensures
        t.visited_contains(g, p.last()),
    decreases p.len(),
{
    if p.len() == 1 {
        assert(t.visited_contains(g, t.entry@) || t.frontier_contains(t.entry@));
        if t.frontier_contains(t.entry@) {
            let m = choose|m: int| 0 <= m < t.frontier@.len() && t.frontier@[m] == t.entry@;
            assert(false);
        }
    } else {
        let q = p.drop_last();
        assert(forall|i: int|
            0 <= i < q.len() - 1 ==> #[trigger] q[i] == p[i] && q[i + 1] == p[i + 1]);
        assert(is_path(g, q));
        lemma_path_visited(g, t, q);
        let a = q.last();
        assert(a == p[p.len() - 2]);
        assert(step_rel(g, a, p.last()));
        lemma_idx_pos(g, a.pos);
        let j = flat_idx(g, a.pos);
        assert(t.visited@[j].spec_contains(a.dir));
        assert(BeamState { pos: pos_of(g, j), dir: a.dir } == a);
        assert(t.visited_contains(g, p.last()) || t.frontier_contains(p.last()));
        if t.frontier_contains(p.last()) {
            let m = choose|m: int| 0 <= m < t.frontier@.len() && t.frontier@[m] == p.last();
            assert(false);
        }
    }
}

/// With an empty frontier, the visited record holds every reachable beam
/// state.
pub proof fn lemma_visited_complete(g: Grid, t: Traversal)
    requires
        t.wf(g),
        t.frontier@.len() == 0,
    ensures
        forall|b: BeamState| #[trigger] reachable(g, t.entry@, b) ==> t.visited_contains(g, b),
{
    assert forall|b: BeamState| #[trigger] reachable(g, t.entry@, b) implies t.visited_contains(
        g,
        b,
    ) by {
        let p = choose|p: Seq<BeamState>| is_path(g, p) && p[0] == t.entry@ && p.last() == b;
        lemma_path_visited(g, t, p);
    }
}

/// Marks that agree pointwise with reachability count the energized cells.
proof fn lemma_counts_agree(g: Grid, entry: BeamState, m: Seq<bool>, k: int)
    requires
        forall|j: int| 0 <= j < k ==> m[j] == pos_energized(g, entry, pos_of(g, j)),
    ensures
        count_true(m, k) == flat_energized_count(g, entry, k),
    decreases k,
{
    if k > 0 {
        lemma_counts_agree(g, entry, m, k - 1);
    }
}

/// Runs one full traversal from `entry` and returns the energized-cell count.
/// The result is exactly the number of positions reachable by some beam, so
/// re-running the tracer from the same entry against the same grid always
/// yields the same count.
pub fn trace(g: &Grid, entry: BeamState) -> (count: usize)
    requires
        g.wf(),
        g.in_bounds(entry.pos),
    ensures
        count == spec_energized_count(*g, entry),
{
    let mut t = Traversal::new(g, entry);
    t.run(g);
    proof {
        let n = g.rows() * g.cols();
        lemma_visited_complete(*g, t);
        assert forall|j: int| 0 <= j < n implies t.energized@[j] == pos_energized(
            *g,
            entry,
            pos_of(*g, j),
        ) by {
            lemma_pos_idx(*g, j);
            let p = pos_of(*g, j);
            if t.energized@[j] {
                let ds = t.visited@[j];
                assert(ds.nonempty());
                if ds.up {
                    assert(ds.spec_contains(Direction::Up));
                    assert(reachable(*g, entry, BeamState { pos: p, dir: Direction::Up }));
                } else if ds.down {
                    assert(ds.spec_contains(Direction::Down));
                    assert(reachable(*g, entry, BeamState { pos: p, dir: Direction::Down }));
                } else if ds.left {
                    assert(ds.spec_contains(Direction::Left));
                    assert(reachable(*g, entry, BeamState { pos: p, dir: Direction::Left }));
                } else {
                    assert(ds.spec_contains(Direction::Right));
                    assert(reachable(*g, entry, BeamState { pos: p, dir: Direction::Right }));
                }
                assert(pos_energized(*g, entry, p));
            }
            if pos_energized(*g, entry, p) {
                let d = choose|d: Direction| reachable(*g, entry, BeamState { pos: p, dir: d });
                assert(t.visited_contains(*g, BeamState { pos: p, dir: d }));
                assert(flat_idx(*g, p) == j);
                assert(t.visited@[j].spec_contains(d));
                assert(t.visited@[j].nonempty()) by {
                    match d {
                        Direction::Up => {},
                        Direction::Down => {},
                        Direction::Left => {},
                        Direction::Right => {},
                    }
                }
                assert(t.energized@[j]);
            }
        }
        lemma_counts_agree(*g, entry, t.energized@, n);
    }
    t.energized_count
}

// ---------------------------------------------------------------------------
// Straight lines on an all-empty grid
// ---------------------------------------------------------------------------

/// Whether every cell of the grid is empty.
pub open spec fn all_empty(g: Grid) -> bool {
    forall|i: int, j: int|
        0 <= i < g.rows() && 0 <= j < g.cols() ==> #[trigger] g.cell(i, j) == CellType::Empty
}

/// On an all-empty grid, every path from a left-edge rightward entry stays on
/// its row and keeps heading right.
proof fn lemma_straight_path(g: Grid, r: int, p: Seq<BeamState>)
    requires
        g.wf(),
        all_empty(g),
        0 <= r < g.rows(),
        is_path(g, p),
        p[0] == (BeamState { pos: Position { row: r as usize, col: 0 }, dir: Direction::Right }),
    ensures
        forall|i: int|
            0 <= i < p.len() ==> (#[trigger] p[i]).pos.row == r && p[i].dir == Direction::Right
                && p[i].pos.col < g.cols(),
    decreases p.len(),
{
    assert(g.cols() <= g.rows() * g.cols()) by (nonlinear_arith)
        requires
            g.rows() >= 1,
            g.cols() >= 0,
    ;
    assert(g.rows() <= g.rows() * g.cols()) by (nonlinear_arith)
        requires
            g.cols() >= 1,
            g.rows() >= 0,
    ;
    if p.len() > 1 {
        let q = p.drop_last();
        assert(forall|i: int|
            0 <= i < q.len() - 1 ==> #[trigger] q[i] == p[i] && q[i + 1] == p[i + 1]);
        assert(is_path(g, q));
        lemma_straight_path(g, r, q);
        let a = q.last();
        assert(a == p[p.len() - 2]);
        let z = p[p.len() - 1];
        assert(step_rel(g, a, z));
        assert(g.cell(a.pos.row as int, a.pos.col as int) == CellType::Empty);
        assert(spec_outgoing(g.cell(a.pos.row as int, a.pos.col as int), a.dir) == seq![
            Direction::Right,
        ]);
        assert(z.dir == Direction::Right);
        assert(g.spec_neighbor(a.pos, Direction::Right) == Some(z.pos));
        assert(forall|i: int| 0 <= i < p.len() - 1 ==> #[trigger] p[i] == q[i]);
    }
}

/// On an all-empty grid, every cell of the entry row is reached heading right.
proof fn lemma_straight_reach(g: Grid, r: int, c: int)
    requires
        g.wf(),
        all_empty(g),
        0 <= r < g.rows(),
        0 <= c < g.cols(),
    ensures
        reachable(
            g,
            BeamState { pos: Position { row: r as usize, col: 0 }, dir: Direction::Right },
            BeamState {
                pos: Position { row: r as usize, col: c as usize },
                dir: Direction::Right,
            },
        ),
    decreases c,
{
    let entry = BeamState { pos: Position { row: r as usize, col: 0 }, dir: Direction::Right };
    assert(g.cols() <= g.rows() * g.cols()) by (nonlinear_arith)
        requires
            g.rows() >= 1,
            g.cols() >= 0,
    ;
    assert(g.rows() <= g.rows() * g.cols()) by (nonlinear_arith)
        requires
            g.cols() >= 1,
            g.rows() >= 0,
    ;
    if c == 0 {
        let pw = seq![entry];
        assert(is_path(g, pw) && pw[0] == entry && pw.last() == entry);
        assert(reachable(g, entry, entry));
    } else {
        lemma_straight_reach(g, r, c - 1);
        let a = BeamState {
            pos: Position { row: r as usize, col: (c - 1) as usize },
            dir: Direction::Right,
        };
        let z = BeamState {
            pos: Position { row: r as usize, col: c as usize },
            dir: Direction::Right,
        };
        assert(g.cell(a.pos.row as int, a.pos.col as int) == CellType::Empty);
        assert(spec_outgoing(g.cell(a.pos.row as int, a.pos.col as int), a.dir) == seq![
            Direction::Right,
        ]);
        assert(z.dir == spec_outgoing(g.cell(a.pos.row as int, a.pos.col as int), a.dir)[0]);
        assert(g.spec_neighbor(a.pos, z.dir) == Some(z.pos));
        assert(step_rel(g, a, z));
        lemma_reachable_step(g, entry, a, z);
    }
}

/// Counting an indicator that holds exactly on one row's index range.
proof fn lemma_count_one_row(g: Grid, entry: BeamState, r: int, m: int)
    requires
        g.wf(),
        0 <= r < g.rows(),
        0 <= m <= g.rows() * g.cols(),
        forall|j: int|
            0 <= j < g.rows() * g.cols() ==> (pos_energized(g, entry, pos_of(g, j)) <==> r
                * g.cols() <= j < (r + 1) * g.cols()),
    ensures
        flat_energized_count(g, entry, m) == if m <= r * g.cols() {
            0
        } else if m <= (r + 1) * g.cols() {
            m - r * g.cols()
        } else {
            g.cols()
        },
    decreases m,
{
    assert((r + 1) * g.cols() == r * g.cols() + g.cols()) by (nonlinear_arith);
    if m > 0 {
        lemma_count_one_row(g, entry, r, m - 1);
    }
}

/// On an all-empty grid, a beam entering at the left edge of a row heading
/// right runs straight across: it energizes exactly the cells of that row,
/// one per column, until it leaves at the opposite edge.
pub proof fn lemma_straight_line_count(g: Grid, r: int)
    requires
        g.wf(),
        all_empty(g),
        0 <= r < g.rows(),
    ensures
        spec_energized_count(
            g,
            BeamState { pos: Position { row: r as usize, col: 0 }, dir: Direction::Right },
        ) == g.cols(),
{
    let entry = BeamState { pos: Position { row: r as usize, col: 0 }, dir: Direction::Right };
    let n = g.rows() * g.cols();
    let cols = g.cols();
    assert(g.cols() <= g.rows() * g.cols()) by (nonlinear_arith)
        requires
            g.rows() >= 1,
            g.cols() >= 0,
    ;
    assert(g.rows() <= g.rows() * g.cols()) by (nonlinear_arith)
        requires
            g.cols() >= 1,
            g.rows() >= 0,
    ;

    assert forall|j: int| 0 <= j < n implies (pos_energized(g, entry, pos_of(g, j)) <==> r * cols
        <= j < (r + 1) * cols) by {
        lemma_pos_idx(g, j);
        let p = pos_of(g, j);
        if pos_energized(g, entry, p) {
            let d = choose|d: Direction| reachable(g, entry, BeamState { pos: p, dir: d });
            let pth = choose|pth: Seq<BeamState>|
                is_path(g, pth) && pth[0] == entry && pth.last() == (BeamState {
                    pos: p,
                    dir: d,
                });
            lemma_straight_path(g, r, pth);
            assert(pth.last().pos.row == r);
            assert(p.row == r);
            vstd::arithmetic::div_mod::lemma_fundamental_div_mod(j, cols);
            vstd::arithmetic::div_mod::lemma_mod_bound(j, cols);
            assert(j == cols * (j / cols) + j % cols);
            assert(j / cols == r);
            assert(r * cols <= j < (r + 1) * cols) by (nonlinear_arith)
                requires
                    j == cols * r + j % cols,
                    0 <= j % cols < cols,
            ;
        }
        if r * cols <= j < (r + 1) * cols {
            assert((r + 1) * cols == r * cols + cols) by (nonlinear_arith);
            lemma_fundamental_div_mod_converse(j, cols, r, j - r * cols);
            assert(j / cols == r);
            assert(p.row == r && p.col < cols);
            lemma_straight_reach(g, r, p.col as int);
            assert(reachable(g, entry, BeamState { pos: p, dir: Direction::Right }));
            assert(pos_energized(g, entry, p));
        }
    }
    assert((r + 1) * cols <= n) by (nonlinear_arith)
        requires
            r + 1 <= g.rows(),
            cols >= 0,
            n == g.rows() * cols,
    ;
    assert(r * cols >= 0) by (nonlinear_arith)
        requires
            r >= 0,
            cols >= 0,
    ;
    assert((r + 1) * cols == r * cols + cols) by (nonlinear_arith);
    lemma_count_one_row(g, entry, r, n);
}

/// The visited record holds at most four direction entries per cell: its
/// total size never exceeds four times the cell count, for any grid and any
/// entry.
pub proof fn lemma_visited_bound(g: Grid, t: Traversal)
    requires
        t.wf(g),
    ensures
        0 <= count_vis(t.visited@, g.rows() * g.cols()) <= 4 * (g.rows() * g.cols()),
{
    lemma_count_vis_bounds(t.visited@, g.rows() * g.cols());
}

} // verus!
