//! The galaxy chart: empty rows and columns of the chart double, and the
//! distances between galaxies are walked on the expanded grid.

use vstd::prelude::*;
use crate::text::{chars_of, split_lines, trim};

verus! {

/// How many listed indices lie strictly below `v`.
pub open spec fn spec_count_less(es: Seq<usize>, v: int, i: int) -> int
    decreases es.len() - i,
{
    if i >= es.len() {
        0
    } else {
        (if es[i] < v {
            1int
        } else {
            0int
        }) + spec_count_less(es, v, i + 1)
    }
}

pub proof fn lemma_count_less_bound(es: Seq<usize>, v: int, i: int)
    ensures
        0 <= spec_count_less(es, v, i) <= if i <= es.len() {
            es.len() - i
        } else {
            0
        },
    decreases es.len() - i,
{
    if i < es.len() {
        lemma_count_less_bound(es, v, i + 1);
    }
}

fn count_less(es: &Vec<usize>, v: usize) -> (r: usize)
    ensures
        r == spec_count_less(es@, v as int, 0),
        r <= es@.len(),
{
    proof {
        lemma_count_less_bound(es@, v as int, 0);
    }
    let mut r: usize = 0;
    let mut i: usize = 0;
    while i < es.len()
        invariant
            i <= es@.len(),
            r <= i,
            spec_count_less(es@, v as int, 0) == r + spec_count_less(es@, v as int, i as int),
        decreases es@.len() - i,
    {
        if es[i] < v {
            r = r + 1;
        }
        i = i + 1;
    }
    r
}

/// The chart: its extents after expansion and its galaxy coordinates.
#[derive(Debug)]
pub struct GalaxyMap {
    pub rows: usize,
    pub cols: usize,
    pub galaxies: Vec<(usize, usize)>,
}

impl GalaxyMap {
    /// Every galaxy lies within the extents, and the extents leave headroom
    /// for one full walk across both.
    pub open spec fn wf(self) -> bool {
        &&& forall|k: int|
            0 <= k < self.galaxies@.len() ==> (#[trigger] self.galaxies@[k]).0 < self.rows && (
            self.galaxies@[k]).1 < self.cols
        &&& self.rows + self.cols <= usize::MAX
    }

    /// Reads the chart and expands it: every row and every column without a
    /// galaxy counts double, so each galaxy moves by the number of empty
    /// lines before it.
    pub fn new(input: &str) -> (r: GalaxyMap)
        ensures
            r.wf(),
    {
        let cs = chars_of(input);
        let ls = split_lines(&cs);
        let mut galaxies: Vec<(usize, usize)> = Vec::new();
        let mut nrows: usize = 0;
        let mut ncols: usize = 0;
        let mut row: usize = 0;
        while row < ls.len()
            invariant
                row <= ls@.len(),
                nrows <= row,
                forall|k: int|
                    0 <= k < galaxies@.len() ==> (#[trigger] galaxies@[k]).0 < nrows && (
                    galaxies@[k]).1 < ncols,
            decreases ls@.len() - row,
        {
            let line = trim(&ls[row]);
            let row1 = row + 1;
            let mut col: usize = 0;
            while col < line.len()
                invariant
                    col <= line@.len(),
                    nrows <= row1,
                    row1 == row + 1,
                    row < ls@.len(),
                    col == 0 ==> nrows <= row,
                    col > 0 ==> nrows == row1,
                    col == 0 || ncols >= col,
                    forall|k: int|
                        0 <= k < galaxies@.len() ==> (#[trigger] galaxies@[k]).0 < nrows && (
                        galaxies@[k]).1 < ncols,
                decreases line@.len() - col,
            {
                if col == 0 {
                    nrows = row1;
                }
                if col + 1 > ncols {
                    ncols = col + 1;
                }
                if line[col] == '#' {
                    galaxies.push((row, col));
                }
                col = col + 1;
            }
            row = row + 1;
        }
        // the rows and columns without a galaxy
        let mut empty_rows: Vec<usize> = Vec::new();
        let mut r: usize = 0;
        while r < nrows
            invariant
                r <= nrows,
                empty_rows@.len() <= r,
            decreases nrows - r,
        {
            let mut any = false;
            let mut k: usize = 0;
            while k < galaxies.len()
                invariant
                    k <= galaxies@.len(),
                decreases galaxies@.len() - k,
            {
                if galaxies[k].0 == r {
                    any = true;
                }
                k = k + 1;
            }
            if !any {
                empty_rows.push(r);
            }
            r = r + 1;
        }
        let mut empty_cols: Vec<usize> = Vec::new();
        let mut c: usize = 0;
        while c < ncols
            invariant
                c <= ncols,
                empty_cols@.len() <= c,
            decreases ncols - c,
        {
            let mut any = false;
            let mut k: usize = 0;
            while k < galaxies.len()
                invariant
                    k <= galaxies@.len(),
                decreases galaxies@.len() - k,
            {
                if galaxies[k].1 == c {
                    any = true;
                }
                k = k + 1;
            }
            if !any {
                empty_cols.push(c);
            }
            c = c + 1;
        }
        // shift each galaxy by the empty lines before it, capping the extents
        let mut shifted: Vec<(usize, usize)> = Vec::new();
        let mut k: usize = 0;
        let bound: usize = usize::MAX / 2;
        let mut rows2: usize = 1;
        let mut cols2: usize = 1;
        while k < galaxies.len()
            invariant
                k <= galaxies@.len(),
                bound == usize::MAX / 2,
                bound >= 1,
                rows2 <= bound,
                cols2 <= bound,
                forall|j: int|
                    0 <= j < shifted@.len() ==> (#[trigger] shifted@[j]).0 < rows2 && (
                    shifted@[j]).1 < cols2,
            decreases galaxies@.len() - k,
        {
            let (gr, gc) = galaxies[k];
            let dr = count_less(&empty_rows, gr);
            let dc = count_less(&empty_cols, gc);
            let nr = if gr <= bound - 1 && dr <= bound - 1 - gr {
                gr + dr
            } else {
                bound - 1
            };
            let nc = if gc <= bound - 1 && dc <= bound - 1 - gc {
                gc + dc
            } else {
                bound - 1
            };
            shifted.push((nr, nc));
            if nr + 1 > rows2 {
                rows2 = nr + 1;
            }
            if nc + 1 > cols2 {
                cols2 = nc + 1;
            }
            k = k + 1;
        }
        GalaxyMap { rows: rows2, cols: cols2, galaxies: shifted }
    }

    /// The walking distance between two listed galaxies: the row gap plus the
    /// column gap.
    pub fn find_distance_between(&self, a: usize, b: usize) -> (r: usize)
        requires
            self.wf(),
            a < self.galaxies@.len(),
            b < self.galaxies@.len(),
        ensures
            r == vstd::math::abs(
                self.galaxies@[a as int].0 as int - self.galaxies@[b as int].0 as int,
            ) + vstd::math::abs(
                self.galaxies@[a as int].1 as int - self.galaxies@[b as int].1 as int,
            ),
    {
        let ga = self.galaxies[a];
        let gb = self.galaxies[b];
        let x = if ga.0 < gb.0 {
            gb.0 - ga.0
        } else {
            ga.0 - gb.0
        };
        let y = if ga.1 < gb.1 {
            gb.1 - ga.1
        } else {
            ga.1 - gb.1
        };
        x + y
    }

    /// Sums the distances of every unordered galaxy pair; zero where the sum
    /// leaves the range.
    pub fn sum_of_distances(&self) -> (r: u64)
        requires
            self.wf(),
    {
        let n = self.galaxies.len();
        let mut sum: u64 = 0;
        let mut a: usize = 0;
        while a < n
            invariant
                a <= n,
                n == self.galaxies@.len(),
                self.wf(),
            decreases n - a,
        {
            let mut b: usize = a + 1;
            while b < n
                invariant
                    a < b || b == a + 1,
                    b <= n || b == a + 1,
                    a < n,
                    n == self.galaxies@.len(),
                    self.wf(),
                decreases n - b,
            {
                let d = self.find_distance_between(a, b) as u64;
                if d > u64::MAX - sum {
                    return 0;
                }
                sum = sum + d;
                b = b + 1;
            }
            a = a + 1;
        }
        sum
    }
}

/// Reads the chart and sums the distances of every galaxy pair.
pub fn sum_galaxy_distances(input: &str) -> (r: u64)
{
    let chart = GalaxyMap::new(input);
    chart.sum_of_distances()
}

} // verus!
