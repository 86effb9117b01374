//! The grid model: typed cells parsed from raw rows of text, with
//! bounds-checked neighbor lookup and the reflection/splitting rules of each
//! cell type.

use vstd::prelude::*;

verus! {

#[derive(Clone, Copy, PartialEq, Eq, Structural, Debug)]
pub enum Direction {
    Up,
    Down,
    Left,
    Right,
}

#[derive(Clone, Copy, PartialEq, Eq, Structural, Debug)]
pub enum CellType {
    Empty,
    ForwardMirror,
    BackwardMirror,
    VerticalSplitter,
    HorizontalSplitter,
}

#[derive(Clone, Copy, PartialEq, Eq, Structural, Debug)]
pub struct Position {
    pub row: usize,
    pub col: usize,
}

/// A beam at a position, heading in a direction: the unit of traversal and of
/// deduplication.
#[derive(Clone, Copy, PartialEq, Eq, Structural, Debug)]
pub struct BeamState {
    pub pos: Position,
    pub dir: Direction,
}

#[derive(Clone, Copy, PartialEq, Eq, Structural, Debug)]
pub enum GridError {
    /// A row holds a character outside the five recognized symbols.
    ParseError,
    /// A row's length differs from the first row's.
    RaggedRowError,
    /// Zero rows, or a first row of zero columns.
    EmptyGridError,
}

/// The cell a character stands for, if it is one of the five symbols.
pub open spec fn spec_cell_of(c: char) -> Option<CellType> {
    if c == '.' {
        Some(CellType::Empty)
    } else if c == '/' {
        Some(CellType::ForwardMirror)
    } else if c == '\\' {
        Some(CellType::BackwardMirror)
    } else if c == '|' {
        Some(CellType::VerticalSplitter)
    } else if c == '-' {
        Some(CellType::HorizontalSplitter)
    } else {
        None
    }
}

pub fn cell_of(c: char) -> (r: Option<CellType>)
    ensures
        r == spec_cell_of(c),
{
    if c == '.' {
        Some(CellType::Empty)
    } else if c == '/' {
        Some(CellType::ForwardMirror)
    } else if c == '\\' {
        Some(CellType::BackwardMirror)
    } else if c == '|' {
        Some(CellType::VerticalSplitter)
    } else if c == '-' {
        Some(CellType::HorizontalSplitter)
    } else {
        None
    }
}

/// The cells of one trimmed row, or `None` at the first unrecognized
/// character.
pub open spec fn spec_parse_row(l: Seq<char>) -> Option<Seq<CellType>>
    decreases l.len(),
{
    if l.len() == 0 {
        Some(Seq::empty())
    } else {
        match spec_cell_of(l[0]) {
            None => None,
            Some(ct) => match spec_parse_row(l.skip(1)) {
                None => None,
                Some(rest) => Some(seq![ct] + rest),
            },
        }
    }
}

/// The rows of a grid, each line trimmed and held to the width of the first;
/// the first offending line decides the error.
pub open spec fn spec_parse_rows(ls: Seq<Seq<char>>, width: int) -> Result<
    Seq<Seq<CellType>>,
    GridError,
>
    decreases ls.len(),
{
    if ls.len() == 0 {
        Ok(Seq::empty())
    } else {
        let t = crate::text::spec_trim(ls[0]);
        if t.len() != width {
            Err(GridError::RaggedRowError)
        } else {
            match spec_parse_row(t) {
                None => Err(GridError::ParseError),
                Some(row) => match spec_parse_rows(ls.skip(1), width) {
                    Ok(rest) => Ok(seq![row] + rest),
                    Err(e) => Err(e),
                },
            }
        }
    }
}

/// What parsing a block of text yields: the typed rows, or the first error.
pub open spec fn spec_parse_grid(s: Seq<char>) -> Result<Seq<Seq<CellType>>, GridError> {
    let ls = crate::text::spec_lines(s);
    if ls.len() == 0 {
        Err(GridError::EmptyGridError)
    } else {
        let w = crate::text::spec_trim(ls[0]).len() as int;
        if w == 0 {
            Err(GridError::EmptyGridError)
        } else {
            spec_parse_rows(ls, w)
        }
    }
}

/// A rectangular grid of cells, immutable after construction.
#[derive(Debug)]
pub struct Grid {
    pub cells: Vec<Vec<CellType>>,
}

impl Grid {
    /// Well-formedness: at least one row, at least one column, all rows of
    /// equal length, and a cell count that fits the machine.
    pub open spec fn wf(self) -> bool {
        self.cells@.len() > 0 && self.cells@[0]@.len() > 0 && (forall|r: int|
            0 <= r < self.cells@.len() ==> (#[trigger] self.cells@[r]@).len()
                == self.cells@[0]@.len()) && self.cells@.len() * self.cells@[0]@.len()
            <= usize::MAX
    }

    pub open spec fn rows(self) -> int {
        self.cells@.len() as int
    }

    pub open spec fn cols(self) -> int {
        self.cells@[0]@.len() as int
    }

    pub open spec fn cell(self, r: int, c: int) -> CellType {
        self.cells@[r]@[c]
    }

    /// The grid matches the given typed rows.
    pub open spec fn matches_rows(self, rows: Seq<Seq<CellType>>) -> bool {
        self.cells@.len() == rows.len() && forall|r: int|
            0 <= r < rows.len() ==> (#[trigger] self.cells@[r]@) == rows[r]
    }

    pub fn num_rows(&self) -> (r: usize)
        ensures
            r == self.rows(),
    {
        self.cells.len()
    }

    pub fn num_cols(&self) -> (r: usize)
        requires
            self.wf(),
        ensures
            r == self.cols(),
    {
        self.cells[0].len()
    }

    /// Parses raw rows of characters into a grid, per `spec_parse_grid`:
    /// an unrecognized character is a `ParseError`, a row length mismatch a
    /// `RaggedRowError`, and zero rows or zero columns an `EmptyGridError`.
    #[verifier::loop_isolation(false)]
    pub fn parse(text: &str) -> (r: Result<Grid, GridError>)
        ensures
            r.is_ok() == spec_parse_grid(text@).is_ok(),
            r matches Err(e) ==> spec_parse_grid(text@) == Result::<
                Seq<Seq<CellType>>,
                GridError,
            >::Err(e),
            r matches Ok(g) ==> g.wf() && (spec_parse_grid(text@) matches Ok(rows)
                && g.matches_rows(rows)),
    {
        let chars = crate::text::chars_of(text);
        let ls = crate::text::split_lines(&chars);
        let ghost lss = crate::text::spec_lines(text@);
        if ls.len() == 0 {
            return Err(GridError::EmptyGridError);
        }
        let first = crate::text::trim(&ls[0]);
        let width = first.len();
        if width == 0 {
            return Err(GridError::EmptyGridError);
        }
        let mut cells: Vec<Vec<CellType>> = Vec::new();
        let ghost mut done: Seq<Seq<CellType>> = Seq::empty();
        let mut i: usize = 0;
        proof {
            assert(lss.skip(0) =~= lss);
        }
        while i < ls.len()
            invariant
                i <= ls@.len(),
                ls@.len() == lss.len(),
                forall|k: int| 0 <= k < ls@.len() ==> ls@[k]@ == lss[k],
                width > 0,
                done.len() == cells@.len(),
                done.len() == i,
                forall|k: int| 0 <= k < done.len() ==> (#[trigger] cells@[k]@) == done[k],
                forall|k: int| 0 <= k < done.len() ==> (#[trigger] done[k]).len() == width,
                forall|k: int|
                    0 <= k < i ==> (#[trigger] crate::text::spec_trim(lss[k])).len() == width,
                spec_parse_rows(lss, width as int) matches Ok(rows) ==> spec_parse_rows(
                    lss.skip(i as int),
                    width as int,
                ) matches Ok(rest) && rows == done + rest,
                spec_parse_rows(lss, width as int) is Err ==> spec_parse_rows(
                    lss.skip(i as int),
                    width as int,
                ) == spec_parse_rows(lss, width as int),
            decreases ls@.len() - i,
        {
            proof {
                assert(lss.skip(i as int).len() == lss.len() - i);
                assert(lss.skip(i as int)[0] == lss[i as int]);
                assert(lss.skip(i as int).skip(1) =~= lss.skip(i + 1));
            }
            let t = crate::text::trim(&ls[i]);
            if t.len() != width {
                return Err(GridError::RaggedRowError);
            }
            // parse this row
            let mut row: Vec<CellType> = Vec::new();
            let ghost mut rdone: Seq<CellType> = Seq::empty();
            let mut j: usize = 0;
            proof {
                assert(t@.skip(0) =~= t@);
            }
            while j < t.len()
                invariant
                    j <= t@.len(),
                    rdone.len() == row@.len(),
                    rdone.len() == j,
                    row@ == rdone,
                    spec_parse_row(t@) matches Some(cs) ==> spec_parse_row(t@.skip(j as int))
                        matches Some(rest) && cs == rdone + rest,
                    spec_parse_row(t@) is None ==> spec_parse_row(t@.skip(j as int)) is None,
                decreases t@.len() - j,
            {
                proof {
                    assert(t@.skip(j as int).len() == t@.len() - j);
                    assert(t@.skip(j as int)[0] == t@[j as int]);
                    assert(t@.skip(j as int).skip(1) =~= t@.skip(j + 1));
                }
                let c = t[j];
                match cell_of(c) {
                    None => {
                        return Err(GridError::ParseError);
                    },
                    Some(ct) => {
                        let ghost rdp = rdone;
                        row.push(ct);
                        proof {
                            rdone = rdone.push(ct);
                            if spec_parse_row(t@) matches Some(cs) {
                                assert(spec_parse_row(t@.skip(j as int)) matches Some(rest0)
                                    ==> rest0 == seq![ct] + spec_parse_row(t@.skip(j + 1))->Some_0);
                                assert(rdp + (seq![ct] + spec_parse_row(t@.skip(j + 1))->Some_0)
                                    =~= rdone + spec_parse_row(t@.skip(j + 1))->Some_0);
                            }
                        }
                    },
                }
                j = j + 1;
            }
            proof {
                assert(t@.skip(j as int) =~= Seq::<char>::empty());
                if spec_parse_row(t@) matches Some(cs) {
                    assert(rdone + Seq::<CellType>::empty() =~= rdone);
                }
            }
            let ghost dp = done;
            let ghost rv = row@;
            cells.push(row);
            proof {
                done = done.push(rv);
                if spec_parse_rows(lss, width as int) matches Ok(rows) {
                    assert(spec_parse_rows(lss.skip(i as int), width as int) matches Ok(rest0)
                        ==> rest0 == seq![rv] + spec_parse_rows(lss.skip(i + 1), width as int)->Ok_0);
                    assert(dp + (seq![rv] + spec_parse_rows(lss.skip(i + 1), width as int)->Ok_0)
                        =~= done + spec_parse_rows(lss.skip(i + 1), width as int)->Ok_0);
                }
            }
            i = i + 1;
        }
        proof {
            assert(lss.skip(i as int) =~= Seq::<Seq<char>>::empty());
            if spec_parse_rows(lss, width as int) matches Ok(rows) {
                assert(done + Seq::<Seq<CellType>>::empty() =~= done);
            }
        }
        let total = chars.len();
        let g = Grid { cells };
        proof {
            assert(spec_parse_rows(lss, width as int) is Ok) by {
                if spec_parse_rows(lss, width as int) is Err {
                    assert(spec_parse_rows(lss.skip(i as int), width as int) == spec_parse_rows(
                        lss,
                        width as int,
                    ));
                }
            }
            // the cell count fits the machine: each line holds `width`
            // characters, and the lines together no more than the text
            crate::text::lemma_lines_total_len(text@, Seq::empty());
            crate::text::lemma_sum_lens_lower(lss, width as int);
            assert(g.cells@.len() * g.cells@[0]@.len() <= total);
            assert(g.wf());
        }
        Ok(g)
    }

    /// Whether a position lies inside the grid.
    pub open spec fn in_bounds(self, p: Position) -> bool {
        p.row < self.rows() && p.col < self.cols()
    }

    /// The cell at a position within bounds.
    pub fn cell_at(&self, p: Position) -> (r: CellType)
        requires
            self.wf(),
            self.in_bounds(p),
        ensures
            r == self.cell(p.row as int, p.col as int),
    {
        self.cells[p.row][p.col]
    }

    /// The neighboring position one step in a direction, or `None` exactly
    /// when the move would leave the grid; no wraparound.
    pub open spec fn spec_neighbor(self, p: Position, d: Direction) -> Option<Position> {
        match d {
            Direction::Up => if p.row == 0 {
                None
            } else {
                Some(Position { row: (p.row - 1) as usize, col: p.col })
            },
            Direction::Down => if p.row + 1 >= self.rows() {
                None
            } else {
                Some(Position { row: (p.row + 1) as usize, col: p.col })
            },
            Direction::Left => if p.col == 0 {
                None
            } else {
                Some(Position { row: p.row, col: (p.col - 1) as usize })
            },
            Direction::Right => if p.col + 1 >= self.cols() {
                None
            } else {
                Some(Position { row: p.row, col: (p.col + 1) as usize })
            },
        }
    }

    pub fn neighbor(&self, p: Position, d: Direction) -> (r: Option<Position>)
        requires
            self.wf(),
            self.in_bounds(p),
        ensures
            r == self.spec_neighbor(p, d),
            r matches Some(q) ==> self.in_bounds(q),
    {
        let nr = self.num_rows();
        let nc = self.num_cols();
        match d {
            Direction::Up => if p.row == 0 {
                None
            } else {
                Some(Position { row: p.row - 1, col: p.col })
            },
            Direction::Down => if p.row + 1 >= nr {
                None
            } else {
                Some(Position { row: p.row + 1, col: p.col })
            },
            Direction::Left => if p.col == 0 {
                None
            } else {
                Some(Position { row: p.row, col: p.col - 1 })
            },
            Direction::Right => if p.col + 1 >= nc {
                None
            } else {
                Some(Position { row: p.row, col: p.col + 1 })
            },
        }
    }
}

/// The direction a mirror sends a beam to; splitters and empty cells pass it
/// unchanged here.
pub open spec fn spec_reflect(cell: CellType, d: Direction) -> Direction {
    match cell {
        CellType::ForwardMirror => match d {
            Direction::Up => Direction::Right,
            Direction::Down => Direction::Left,
            Direction::Right => Direction::Up,
            Direction::Left => Direction::Down,
        },
        CellType::BackwardMirror => match d {
            Direction::Up => Direction::Left,
            Direction::Down => Direction::Right,
            Direction::Right => Direction::Down,
            Direction::Left => Direction::Up,
        },
        _ => d,
    }
}

/// The outgoing directions of a beam striking a cell: mirrors reflect, a
/// splitter struck along its axis passes the beam through, a splitter struck
/// across its axis forks the beam into its two axis directions.
pub open spec fn spec_outgoing(cell: CellType, d: Direction) -> Seq<Direction> {
    match cell {
        CellType::Empty => seq![d],
        CellType::ForwardMirror => seq![spec_reflect(cell, d)],
        CellType::BackwardMirror => seq![spec_reflect(cell, d)],
        CellType::VerticalSplitter => if d == Direction::Up || d == Direction::Down {
            seq![d]
        } else {
            seq![Direction::Up, Direction::Down]
        },
        CellType::HorizontalSplitter => if d == Direction::Left || d == Direction::Right {
            seq![d]
        } else {
            seq![Direction::Left, Direction::Right]
        },
    }
}

pub fn outgoing(cell: CellType, d: Direction) -> (r: Vec<Direction>)
    ensures
        r@ == spec_outgoing(cell, d),
        1 <= r@.len() <= 2,
{
    let mut r: Vec<Direction> = Vec::new();
    match cell {
        CellType::Empty => {
            r.push(d);
        },
        CellType::ForwardMirror => {
            let d2 = match d {
                Direction::Up => Direction::Right,
                Direction::Down => Direction::Left,
                Direction::Right => Direction::Up,
                Direction::Left => Direction::Down,
            };
            r.push(d2);
        },
        CellType::BackwardMirror => {
            let d2 = match d {
                Direction::Up => Direction::Left,
                Direction::Down => Direction::Right,
                Direction::Right => Direction::Down,
                Direction::Left => Direction::Up,
            };
            r.push(d2);
        },
        CellType::VerticalSplitter => {
            if d == Direction::Up || d == Direction::Down {
                r.push(d);
            } else {
                r.push(Direction::Up);
                r.push(Direction::Down);
            }
        },
        CellType::HorizontalSplitter => {
            if d == Direction::Left || d == Direction::Right {
                r.push(d);
            } else {
                r.push(Direction::Left);
                r.push(Direction::Right);
            }
        },
    }
    proof {
        assert(r@ =~= spec_outgoing(cell, d));
    }
    r
}

/// A vertical splitter struck heading up or down yields exactly the one
/// pass-through direction; struck heading left or right it yields exactly two,
/// up and down — never zero and never three. The horizontal splitter behaves
/// symmetrically.
pub proof fn lemma_splitter_outgoing(d: Direction)
    ensures
        (d == Direction::Up || d == Direction::Down) ==> spec_outgoing(
            CellType::VerticalSplitter,
            d,
        ) == seq![d],
        (d == Direction::Left || d == Direction::Right) ==> spec_outgoing(
            CellType::VerticalSplitter,
            d,
        ).len() == 2 && spec_outgoing(CellType::VerticalSplitter, d)[0] == Direction::Up
            && spec_outgoing(CellType::VerticalSplitter, d)[1] == Direction::Down,
        (d == Direction::Left || d == Direction::Right) ==> spec_outgoing(
            CellType::HorizontalSplitter,
            d,
        ) == seq![d],
        (d == Direction::Up || d == Direction::Down) ==> spec_outgoing(
            CellType::HorizontalSplitter,
            d,
        ).len() == 2 && spec_outgoing(CellType::HorizontalSplitter, d)[0] == Direction::Left
            && spec_outgoing(CellType::HorizontalSplitter, d)[1] == Direction::Right,
{
}

} // verus!
