//! The tilting platform: round rocks `O` roll toward the tilted edge until
//! they rest against the edge, a cube rock `#`, or another round rock, and
//! the north-edge load is weighed.

use vstd::prelude::*;
use crate::text::{chars_of, split_lines, trim, spec_lines, spec_trim};

verus! {

/// The platform: its rows, and the same cells column-wise.
pub struct Pattern {
    pub rows: Vec<Vec<char>>,
    pub cols: Vec<Vec<char>>,
}

/// Rows with equal widths and columns transposing them.
pub open spec fn spec_in_sync(rows: Seq<Vec<char>>, cols: Seq<Vec<char>>) -> bool {
    &&& forall|r: int| 0 <= r < rows.len() ==> (#[trigger] rows[r])@.len() == cols.len()
    &&& forall|c: int| 0 <= c < cols.len() ==> (#[trigger] cols[c])@.len() == rows.len()
    &&& forall|c: int, r: int|
        0 <= c < cols.len() && 0 <= r < rows.len() ==> (#[trigger] cols[c]@[r]) == rows[r]@[c]
}

/// The dimensions of a cell block.
pub open spec fn spec_dims(rows: Seq<Vec<char>>, nrows: int, ncols: int) -> bool {
    rows.len() == nrows && forall|r: int|
        0 <= r < rows.len() ==> (#[trigger] rows[r])@.len() == ncols
}

fn transpose(rows: &Vec<Vec<char>>, width: usize) -> (cols: Vec<Vec<char>>)
    requires
        forall|r: int| 0 <= r < rows@.len() ==> (#[trigger] rows@[r])@.len() == width,
    ensures
        spec_in_sync(rows@, cols@),
        cols@.len() == width,
{
    let mut cols: Vec<Vec<char>> = Vec::new();
    let mut c: usize = 0;
    while c < width
        invariant
            c <= width,
            forall|r: int| 0 <= r < rows@.len() ==> (#[trigger] rows@[r])@.len() == width,
            cols@.len() == c,
            forall|c2: int| 0 <= c2 < c ==> (#[trigger] cols@[c2])@.len() == rows@.len(),
            forall|c2: int, r: int|
                0 <= c2 < c && 0 <= r < rows@.len() ==> (#[trigger] cols@[c2]@[r]) == rows@[r]@[c2],
        decreases width - c,
    {
        let mut col: Vec<char> = Vec::new();
        let mut r: usize = 0;
        while r < rows.len()
            invariant
                r <= rows@.len(),
                c < width,
                forall|r2: int| 0 <= r2 < rows@.len() ==> (#[trigger] rows@[r2])@.len() == width,
                col@.len() == r,
                forall|r2: int| 0 <= r2 < r ==> (#[trigger] col@[r2]) == rows@[r2]@[c as int],
            decreases rows@.len() - r,
        {
            col.push(rows[r][c]);
            r = r + 1;
        }
        cols.push(col);
        c = c + 1;
    }
    cols
}

/// One bubble pass toward the low edge of a block: every round rock with a
/// free cell just before it in its column moves one step. Dimensions are kept.
fn bubble_pass(rows: &mut Vec<Vec<char>>, ghost_width: Ghost<int>)
    requires
        forall|r: int|
            0 <= r < old(rows)@.len() ==> (#[trigger] old(rows)@[r])@.len() == ghost_width@,
    ensures
        spec_dims(final(rows)@, old(rows)@.len() as int, ghost_width@),
{
    let nrows = rows.len();
    let mut r: usize = 1;
    while r < nrows
        invariant
            1 <= r || nrows == 0,
            nrows == rows@.len(),
            forall|r2: int| 0 <= r2 < rows@.len() ==> (#[trigger] rows@[r2])@.len() == ghost_width@,
        decreases nrows - r,
    {
        let width = rows[r].len();
        let mut c: usize = 0;
        while c < width
            invariant
                c <= width,
                1 <= r < nrows,
                nrows == rows@.len(),
                width == ghost_width@,
                forall|r2: int|
                    0 <= r2 < rows@.len() ==> (#[trigger] rows@[r2])@.len() == ghost_width@,
            decreases width - c,
        {
            let here = rows[r][c];
            let above = rows[r - 1][c];
            if here == 'O' && above == '.' {
                let upper = &mut rows[r - 1];
                let uslot = &mut upper[c];
                *uslot = 'O';
                let lower = &mut rows[r];
                let lslot = &mut lower[c];
                *lslot = '.';
            }
            c = c + 1;
        }
        r = r + 1;
    }
}

impl Pattern {
    /// The rows hold the trimmed lines of the input, and the columns
    /// transpose the rows where the block is rectangular.
    #[verifier::loop_isolation(false)]
    pub fn new(input: &str) -> (p: Pattern)
        ensures
            p.rows@.len() == spec_lines(input@).len(),
            forall|r: int|
                0 <= r < p.rows@.len() ==> (#[trigger] p.rows@[r])@ == spec_trim(
                    spec_lines(input@)[r],
                ),
    {
        let cs = chars_of(input);
        let ls = split_lines(&cs);
        let mut rows: Vec<Vec<char>> = Vec::new();
        let mut i: usize = 0;
        while i < ls.len()
            invariant
                i <= ls@.len(),
                rows@.len() == i,
                forall|r: int|
                    0 <= r < i ==> (#[trigger] rows@[r])@ == spec_trim(spec_lines(cs@)[r]),
            decreases ls@.len() - i,
        {
            let t = trim(&ls[i]);
            rows.push(t);
            i = i + 1;
        }
        let mut rect = true;
        let mut i: usize = 0;
        while i < rows.len()
            invariant
                i <= rows@.len(),
                rect == (forall|r: int|
                    0 <= r < i ==> (#[trigger] rows@[r])@.len() == rows@[0]@.len()),
            decreases rows@.len() - i,
        {
            if rows[i].len() != rows[0].len() {
                rect = false;
            }
            i = i + 1;
        }
        if rows.len() == 0 || !rect {
            return Pattern { rows, cols: Vec::new() };
        }
        let width = rows[0].len();
        let cols = transpose(&rows, width);
        Pattern { rows, cols }
    }

    /// Whether the rows are rectangular with the columns transposing them.
    pub open spec fn wf(self) -> bool {
        spec_in_sync(self.rows@, self.cols@)
    }

    /// Rolls the round rocks north until none can move; rows and columns stay
    /// in sync and keep their dimensions.
    pub fn tilt_north(&mut self)
        requires
            old(self).wf(),
        ensures
            final(self).wf(),
            final(self).rows@.len() == old(self).rows@.len(),
            final(self).cols@.len() == old(self).cols@.len(),
    {
        let ghost w = self.cols@.len() as int;
        let npasses = self.rows.len();
        let mut p: usize = 0;
        while p < npasses
            invariant
                p <= npasses,
                spec_dims(self.rows@, old(self).rows@.len() as int, w),
                self.cols == old(self).cols,
            decreases npasses - p,
        {
            bubble_pass(&mut self.rows, Ghost(w));
            p = p + 1;
        }
        let width = self.cols.len();
        self.cols = transpose(&self.rows, width);
    }

    /// Rolls the round rocks south, by flipping, rolling north, and flipping
    /// back.
    pub fn tilt_south(&mut self)
        requires
            old(self).wf(),
        ensures
            final(self).wf(),
            final(self).rows@.len() == old(self).rows@.len(),
            final(self).cols@.len() == old(self).cols@.len(),
    {
        let ghost w = self.cols@.len() as int;
        reverse_rows(&mut self.rows, Ghost(w));
        let npasses = self.rows.len();
        let mut p: usize = 0;
        while p < npasses
            invariant
                p <= npasses,
                spec_dims(self.rows@, old(self).rows@.len() as int, w),
                self.cols == old(self).cols,
            decreases npasses - p,
        {
            bubble_pass(&mut self.rows, Ghost(w));
            p = p + 1;
        }
        reverse_rows(&mut self.rows, Ghost(w));
        let width = self.cols.len();
        self.cols = transpose(&self.rows, width);
    }

    /// Rolls the round rocks west: the columns-of-columns view rolls north.
    pub fn tilt_west(&mut self)
        requires
            old(self).wf(),
        ensures
            final(self).wf(),
            final(self).rows@.len() == old(self).rows@.len(),
            final(self).cols@.len() == old(self).cols@.len(),
    {
        let ghost h = self.rows@.len() as int;
        let npasses = self.cols.len();
        let mut p: usize = 0;
        while p < npasses
            invariant
                p <= npasses,
                spec_dims(self.cols@, old(self).cols@.len() as int, h),
                self.rows == old(self).rows,
            decreases npasses - p,
        {
            bubble_pass(&mut self.cols, Ghost(h));
            p = p + 1;
        }
        let height = self.rows.len();
        self.rows = transpose(&self.cols, height);
        proof {
            assert forall|c: int, r: int|
                0 <= c < self.cols@.len() && 0 <= r < self.rows@.len() implies (
            #[trigger] self.cols@[c]@[r]) == self.rows@[r]@[c] by {
                assert(self.rows@[r]@[c] == self.cols@[c]@[r]);
            }
        }
    }

    /// Rolls the round rocks east, by flipping the columns, rolling, and
    /// flipping back.
    pub fn tilt_east(&mut self)
        requires
            old(self).wf(),
        ensures
            final(self).wf(),
            final(self).rows@.len() == old(self).rows@.len(),
            final(self).cols@.len() == old(self).cols@.len(),
    {
        let ghost h = self.rows@.len() as int;
        reverse_rows(&mut self.cols, Ghost(h));
        let npasses = self.cols.len();
        let mut p: usize = 0;
        while p < npasses
            invariant
                p <= npasses,
                spec_dims(self.cols@, old(self).cols@.len() as int, h),
                self.rows == old(self).rows,
            decreases npasses - p,
        {
            bubble_pass(&mut self.cols, Ghost(h));
            p = p + 1;
        }
        reverse_rows(&mut self.cols, Ghost(h));
        let height = self.rows.len();
        self.rows = transpose(&self.cols, height);
        proof {
            assert forall|c: int, r: int|
                0 <= c < self.cols@.len() && 0 <= r < self.rows@.len() implies (
            #[trigger] self.cols@[c]@[r]) == self.rows@[r]@[c] by {
                assert(self.rows@[r]@[c] == self.cols@[c]@[r]);
            }
        }
    }

    /// One spin: roll north, west, south, then east.
    pub fn tilt_cycle(&mut self)
        requires
            old(self).wf(),
        ensures
            final(self).wf(),
            final(self).rows@.len() == old(self).rows@.len(),
            final(self).cols@.len() == old(self).cols@.len(),
    {
        self.tilt_north();
        self.tilt_west();
        self.tilt_south();
        self.tilt_east();
    }

    /// The checked north-edge load: each round rock weighs the number of rows
    /// at or below it; `None` where a sum leaves the range.
    pub open spec fn spec_weight_fold(rows: Seq<Vec<char>>, i: int, acc: usize) -> Option<usize>
        decreases rows.len() - i,
    {
        if i >= rows.len() {
            Some(acc)
        } else {
            let w = spec_row_rocks(rows[i]@) * (rows.len() - i);
            if acc + w > usize::MAX {
                None
            } else {
                Self::spec_weight_fold(rows, i + 1, (acc + w) as usize)
            }
        }
    }

    /// Sums the weight of the rows; zero where the sum leaves the range.
    pub fn sum_weight(&self) -> (r: usize)
        ensures
            r == match Self::spec_weight_fold(self.rows@, 0, 0) {
                Some(v) => v,
                None => 0,
            },
    {
        let n = self.rows.len();
        let mut acc: usize = 0;
        let mut i: usize = 0;
        while i < n
            invariant
                i <= n,
                n == self.rows@.len(),
                Self::spec_weight_fold(self.rows@, 0, 0) == Self::spec_weight_fold(
                    self.rows@,
                    i as int,
                    acc,
                ),
            decreases n - i,
        {
            let rocks = count_rocks(&self.rows[i]);
            proof {
                assert(rocks as u128 * (n - i) as u128 <= u64::MAX as u128 * u64::MAX as u128)
                    by (nonlinear_arith)
                    requires
                        0 <= rocks as u128 <= u64::MAX as u128,
                        0 <= (n - i) as u128 <= u64::MAX as u128,
                ;
            }
            let wide = rocks as u128 * (n - i) as u128;
            if wide > usize::MAX as u128 - acc as u128 {
                return 0;
            }
            acc = acc + wide as usize;
            i = i + 1;
        }
        acc
    }
}

/// How many round rocks a row holds.
pub open spec fn spec_row_rocks(row: Seq<char>) -> int
    decreases row.len(),
{
    if row.len() == 0 {
        0
    } else {
        (if row[0] == 'O' {
            1int
        } else {
            0int
        }) + spec_row_rocks(row.skip(1))
    }
}

fn count_rocks(row: &Vec<char>) -> (r: usize)
    ensures
        r == spec_row_rocks(row@),
        r <= row@.len(),
{
    let mut r: usize = 0;
    let mut i: usize = 0;
    proof {
        assert(row@.skip(0) =~= row@);
    }
    while i < row.len()
        invariant
            i <= row@.len(),
            r <= i,
            spec_row_rocks(row@) == r + spec_row_rocks(row@.skip(i as int)),
        decreases row@.len() - i,
    {
        proof {
            assert(row@.skip(i as int).len() == row@.len() - i);
            assert(row@.skip(i as int)[0] == row@[i as int]);
            assert(row@.skip(i as int).skip(1) =~= row@.skip(i + 1));
        }
        if row[i] == 'O' {
            r = r + 1;
        }
        i = i + 1;
    }
    proof {
        assert(row@.skip(i as int) =~= Seq::<char>::empty());
        lemma_row_rocks_nonneg(row@.skip(i as int));
    }
    r
}

proof fn lemma_row_rocks_nonneg(row: Seq<char>)
    ensures
        spec_row_rocks(row) >= 0,
    decreases row.len(),
{
    if row.len() > 0 {
        lemma_row_rocks_nonneg(row.skip(1));
    }
}

/// Reverses the order of the rows of a block, keeping each row.
fn reverse_rows(rows: &mut Vec<Vec<char>>, ghost_width: Ghost<int>)
    requires
        forall|r: int|
            0 <= r < old(rows)@.len() ==> (#[trigger] old(rows)@[r])@.len() == ghost_width@,
    ensures
        spec_dims(final(rows)@, old(rows)@.len() as int, ghost_width@),
{
    let n = rows.len();
    let mut out: Vec<Vec<char>> = Vec::new();
    let mut i: usize = 0;
    while i < n
        invariant
            i <= n,
            n == rows@.len(),
            forall|r: int| 0 <= r < rows@.len() ==> (#[trigger] rows@[r])@.len() == ghost_width@,
            out@.len() == i,
            forall|r: int| 0 <= r < i ==> (#[trigger] out@[r])@.len() == ghost_width@,
        decreases n - i,
    {
        let mut row: Vec<char> = Vec::new();
        let src = &rows[n - 1 - i];
        let mut j: usize = 0;
        while j < src.len()
            invariant
                j <= src@.len(),
                row@ == src@.subrange(0, j as int),
            decreases src@.len() - j,
        {
            row.push(src[j]);
            proof {
                assert(row@ =~= src@.subrange(0, j + 1));
            }
            j = j + 1;
        }
        proof {
            assert(row@ =~= src@);
        }
        out.push(row);
        i = i + 1;
    }
    *rows = out;
}

} // verus!
