//! The search coordinator: every legal border entry is a candidate, each
//! candidate gets one independent traversal against the shared grid, and the
//! results reduce to their maximum.

use vstd::prelude::*;
use crate::grid::{Grid, Direction, Position, BeamState, GridError, CellType, spec_parse_grid};
use crate::tracer::{trace, spec_energized_count};

verus! {

/// The canonical fixed entry: the top-left cell heading rightward.
pub open spec fn spec_fixed_entry() -> BeamState {
    BeamState { pos: Position { row: 0, col: 0 }, dir: Direction::Right }
}

pub fn fixed_entry() -> (r: BeamState)
    ensures
        r == spec_fixed_entry(),
{
    BeamState { pos: Position { row: 0, col: 0 }, dir: Direction::Right }
}

/// Every border entry configuration, in order: the top row heading down, the
/// bottom row heading up, the left column heading right, the right column
/// heading left. A corner appears once per adjacent side.
pub open spec fn spec_candidates(g: Grid) -> Seq<BeamState> {
    Seq::new(
        g.cols() as nat,
        |c: int| BeamState { pos: Position { row: 0, col: c as usize }, dir: Direction::Down },
    ) + Seq::new(
        g.cols() as nat,
        |c: int|
            BeamState {
                pos: Position { row: (g.rows() - 1) as usize, col: c as usize },
                dir: Direction::Up,
            },
    ) + Seq::new(
        g.rows() as nat,
        |r: int| BeamState { pos: Position { row: r as usize, col: 0 }, dir: Direction::Right },
    ) + Seq::new(
        g.rows() as nat,
        |r: int|
            BeamState {
                pos: Position { row: r as usize, col: (g.cols() - 1) as usize },
                dir: Direction::Left,
            },
    )
}

pub fn candidates(g: &Grid) -> (r: Vec<BeamState>)
    requires
        g.wf(),
    ensures
        r@ == spec_candidates(*g),
        r@.len() == 2 * g.cols() + 2 * g.rows(),
        forall|i: int| 0 <= i < r@.len() ==> g.in_bounds((#[trigger] r@[i]).pos),
{
    let rows = g.num_rows();
    let cols = g.num_cols();
    let mut r: Vec<BeamState> = Vec::new();
    let mut c: usize = 0;
    while c < cols
        invariant
            c <= cols,
            cols == g.cols(),
            r@.len() == c,
            forall|i: int|
                0 <= i < c ==> #[trigger] r@[i] == (BeamState {
                    pos: Position { row: 0, col: i as usize },
                    dir: Direction::Down,
                }),
        decreases cols - c,
    {
        r.push(BeamState { pos: Position { row: 0, col: c }, dir: Direction::Down });
        c = c + 1;
    }
    let mut c: usize = 0;
    while c < cols
        invariant
            c <= cols,
            cols == g.cols(),
            rows == g.rows(),
            rows >= 1,
            r@.len() == cols + c,
            forall|i: int|
                0 <= i < cols ==> #[trigger] r@[i] == (BeamState {
                    pos: Position { row: 0, col: i as usize },
                    dir: Direction::Down,
                }),
            forall|i: int|
                cols <= i < cols + c ==> #[trigger] r@[i] == (BeamState {
                    pos: Position { row: (rows - 1) as usize, col: (i - cols) as usize },
                    dir: Direction::Up,
                }),
        decreases cols - c,
    {
        r.push(BeamState { pos: Position { row: rows - 1, col: c }, dir: Direction::Up });
        c = c + 1;
    }
    let mut w: usize = 0;
    while w < rows
        invariant
            w <= rows,
            cols == g.cols(),
            rows == g.rows(),
            rows >= 1,
            r@.len() == 2 * cols + w,
            forall|i: int|
                0 <= i < cols ==> #[trigger] r@[i] == (BeamState {
                    pos: Position { row: 0, col: i as usize },
                    dir: Direction::Down,
                }),
            forall|i: int|
                cols <= i < 2 * cols ==> #[trigger] r@[i] == (BeamState {
                    pos: Position { row: (rows - 1) as usize, col: (i - cols) as usize },
                    dir: Direction::Up,
                }),
            forall|i: int|
                2 * cols <= i < 2 * cols + w ==> #[trigger] r@[i] == (BeamState {
                    pos: Position { row: (i - 2 * cols) as usize, col: 0 },
                    dir: Direction::Right,
                }),
        decreases rows - w,
    {
        r.push(BeamState { pos: Position { row: w, col: 0 }, dir: Direction::Right });
        w = w + 1;
    }
    let mut w: usize = 0;
    while w < rows
        invariant
            w <= rows,
            cols == g.cols(),
            rows == g.rows(),
            rows >= 1,
            cols >= 1,
            r@.len() == 2 * cols + rows + w,
            forall|i: int|
                0 <= i < cols ==> #[trigger] r@[i] == (BeamState {
                    pos: Position { row: 0, col: i as usize },
                    dir: Direction::Down,
                }),
            forall|i: int|
                cols <= i < 2 * cols ==> #[trigger] r@[i] == (BeamState {
                    pos: Position { row: (rows - 1) as usize, col: (i - cols) as usize },
                    dir: Direction::Up,
                }),
            forall|i: int|
                2 * cols <= i < 2 * cols + rows ==> #[trigger] r@[i] == (BeamState {
                    pos: Position { row: (i - 2 * cols) as usize, col: 0 },
                    dir: Direction::Right,
                }),
            forall|i: int|
                2 * cols + rows <= i < 2 * cols + rows + w ==> #[trigger] r@[i] == (BeamState {
                    pos: Position { row: (i - 2 * cols - rows) as usize, col: (cols - 1) as usize },
                    dir: Direction::Left,
                }),
        decreases rows - w,
    {
        r.push(BeamState { pos: Position { row: w, col: cols - 1 }, dir: Direction::Left });
        w = w + 1;
    }
    proof {
        assert(r@ =~= spec_candidates(*g));
        assert forall|i: int| 0 <= i < r@.len() implies g.in_bounds((#[trigger] r@[i]).pos) by {
            if i < cols {
            } else if i < 2 * cols {
            } else if i < 2 * cols + rows {
            } else {
            }
        }
    }
    r
}

/// The maximum energized-cell count over all border entry candidates. Ties
/// keep the numeric maximum; which entry produced it is not observable here.
pub fn max_count(g: &Grid) -> (m: usize)
    requires
        g.wf(),
    ensures
        forall|i: int|
            0 <= i < spec_candidates(*g).len() ==> spec_energized_count(
                *g,
                #[trigger] spec_candidates(*g)[i],
            ) <= m as int,
        exists|i: int|
            0 <= i < spec_candidates(*g).len() && spec_energized_count(
                *g,
                #[trigger] spec_candidates(*g)[i],
            ) == m as int,
{
    let cands = candidates(g);
    let first = cands[0];
    let mut m = trace(g, first);
    let mut i: usize = 1;
    while i < cands.len()
        invariant
            1 <= i <= cands@.len(),
            g.wf(),
            cands@ == spec_candidates(*g),
            forall|k: int| 0 <= k < cands@.len() ==> g.in_bounds((#[trigger] cands@[k]).pos),
            forall|k: int|
                0 <= k < i ==> spec_energized_count(*g, #[trigger] cands@[k]) <= m as int,
            exists|k: int|
                0 <= k < i && spec_energized_count(*g, #[trigger] cands@[k]) == m as int,
        decreases cands@.len() - i,
    {
        let c = trace(g, cands[i]);
        if c > m {
            m = c;
        }
        i = i + 1;
    }
    m
}

/// The energized-cell count for the canonical fixed entry.
pub fn fixed_count(g: &Grid) -> (c: usize)
    requires
        g.wf(),
    ensures
        c as int == spec_energized_count(*g, spec_fixed_entry()),
{
    trace(g, fixed_entry())
}

/// The fixed entry is a member of the candidate set the coordinator searches,
/// so any bound on all candidates also bounds the fixed entry's count.
pub proof fn lemma_max_at_least_fixed(g: Grid, m: int)
    requires
        g.wf(),
        forall|i: int|
            0 <= i < spec_candidates(g).len() ==> spec_energized_count(
                g,
                #[trigger] spec_candidates(g)[i],
            ) <= m,
    ensures
        spec_energized_count(g, spec_fixed_entry()) <= m,
{
    let idx = 2 * g.cols();
    assert(spec_candidates(g)[idx] == spec_fixed_entry());
    assert(spec_energized_count(g, spec_candidates(g)[idx]) <= m);
}

/// Re-running a traversal changes nothing: the energized count is a function
/// of the grid and the entry state alone, so two runs from the same initial
/// beam state against the same grid report the same size.
pub proof fn lemma_trace_idempotent(g: Grid, entry: BeamState, a: int, b: int)
    requires
        a == spec_energized_count(g, entry),
        b == spec_energized_count(g, entry),
    ensures
        a == b,
{
}

/// The whole pipeline over one block of grid text: parse, trace the fixed
/// entry, search all border entries, and report both counts. The maximum is
/// never below the fixed entry's count.
pub fn solve(text: &str) -> (r: Result<(usize, usize), GridError>)
    ensures
        r.is_ok() == spec_parse_grid(text@).is_ok(),
        r matches Err(e) ==> spec_parse_grid(text@) == Result::<
            Seq<Seq<CellType>>,
            GridError,
        >::Err(e),
        r matches Ok(pair) ==> exists|g: Grid|
            {
                &&& g.wf()
                &&& (spec_parse_grid(text@) matches Ok(rows) && g.matches_rows(rows))
                &&& pair.0 as int == spec_energized_count(g, spec_fixed_entry())
                &&& (forall|i: int|
                    0 <= i < spec_candidates(g).len() ==> spec_energized_count(
                        g,
                        #[trigger] spec_candidates(g)[i],
                    ) <= pair.1 as int)
                &&& (exists|i: int|
                    0 <= i < spec_candidates(g).len() && spec_energized_count(
                        g,
                        #[trigger] spec_candidates(g)[i],
                    ) == pair.1 as int)
            },
        r matches Ok(pair) ==> pair.0 <= pair.1,
{
    match Grid::parse(text) {
        Err(e) => Err(e),
        Ok(g) => {
            let f = fixed_count(&g);
            let m = max_count(&g);
            proof {
                lemma_max_at_least_fixed(g, m as int);
            }
            Ok((f, m))
        },
    }
}

} // verus!
