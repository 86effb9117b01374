//! Reflection patterns: blocks of rows whose mirror line is a row or column
//! index where the two sides read as reflections of each other.

use vstd::prelude::*;
use crate::text::{chars_of, split_lines, split_blank, trim, spec_lines, spec_split_blank,
    spec_trim};

verus! {

/// One pattern: its rows, and the same cells column-wise.
pub struct Pattern {
    pub rows: Vec<Vec<char>>,
    pub cols: Vec<Vec<char>>,
}

/// Whether all rows have exactly the width of the first.
pub open spec fn spec_rectangular(rows: Seq<Seq<char>>) -> bool {
    forall|r: int| 0 <= r < rows.len() ==> (#[trigger] rows[r]).len() == rows[0].len()
}

impl Pattern {
    /// The rows hold the trimmed lines of the block.
    pub open spec fn rows_match(self, s: Seq<char>) -> bool {
        &&& self.rows@.len() == spec_lines(s).len()
        &&& forall|r: int|
            0 <= r < self.rows@.len() ==> (#[trigger] self.rows@[r])@ == spec_trim(
                spec_lines(s)[r],
            )
    }

    /// The columns transpose the rows.
    pub open spec fn cols_transpose(self) -> bool {
        &&& self.cols@.len() == (if self.rows@.len() == 0 {
            0int
        } else {
            self.rows@[0]@.len() as int
        })
        &&& forall|c: int|
            0 <= c < self.cols@.len() ==> (#[trigger] self.cols@[c])@.len() == self.rows@.len()
        &&& forall|c: int, r: int|
            0 <= c < self.cols@.len() && 0 <= r < self.rows@.len()
                ==> (#[trigger] self.cols@[c]@[r]) == self.rows@[r]@[c]
    }

    /// Parses a block into trimmed rows and, for a rectangular block, their
    /// transpose; a ragged block gets no columns.
    #[verifier::loop_isolation(false)]
    pub fn new(input: &str) -> (p: Pattern)
        ensures
            p.rows_match(input@),
            spec_rectangular(p.rows@.map_values(|v: Vec<char>| v@)) && p.rows@.len() > 0
                ==> p.cols_transpose(),
    {
        let cs = chars_of(input);
        Pattern::from_chars(&cs)
    }

    /// As `new`, over an already split block.
    #[verifier::loop_isolation(false)]
    pub fn from_chars(cs: &Vec<char>) -> (p: Pattern)
        ensures
            p.rows_match(cs@),
            spec_rectangular(p.rows@.map_values(|v: Vec<char>| v@)) && p.rows@.len() > 0
                ==> p.cols_transpose(),
    {
        let ls = split_lines(cs);
        let mut rows: Vec<Vec<char>> = Vec::new();
        let mut i: usize = 0;
        while i < ls.len()
            invariant
                i <= ls@.len(),
                rows@.len() == i,
                forall|r: int|
                    0 <= r < i ==> (#[trigger] rows@[r])@ == spec_trim(spec_lines(cs@)[r]),
            decreases ls@.len() - i,
        {
            let t = trim(&ls[i]);
            rows.push(t);
            i = i + 1;
        }
        // check the block is rectangular
        let mut rect = true;
        let mut i: usize = 0;
        while i < rows.len()
            invariant
                i <= rows@.len(),
                rect == (forall|r: int|
                    0 <= r < i ==> (#[trigger] rows@[r])@.len() == rows@[0]@.len()),
            decreases rows@.len() - i,
        {
            if rows[i].len() != rows[0].len() {
                rect = false;
            }
            i = i + 1;
        }
        if rows.len() == 0 || !rect {
            proof {
                let rv = rows@.map_values(|v: Vec<char>| v@);
                if rows@.len() > 0 && spec_rectangular(rv) {
                    assert(forall|r: int|
                        0 <= r < rows@.len() ==> (#[trigger] rows@[r])@.len() == rows@[0]@.len())
                        by {
                        assert(forall|r: int|
                            0 <= r < rv.len() ==> (#[trigger] rv[r]).len() == rv[0].len());
                        assert(forall|r: int|
                            0 <= r < rows@.len() ==> rv[r] == (#[trigger] rows@[r])@);
                    }
                }
            }
            return Pattern { rows, cols: Vec::new() };
        }
        let width = rows[0].len();
        let mut cols: Vec<Vec<char>> = Vec::new();
        let mut c: usize = 0;
        while c < width
            invariant
                c <= width,
                width == rows@[0]@.len(),
                rows@.len() > 0,
                forall|r: int| 0 <= r < rows@.len() ==> (#[trigger] rows@[r])@.len() == width,
                cols@.len() == c,
                forall|c2: int| 0 <= c2 < c ==> (#[trigger] cols@[c2])@.len() == rows@.len(),
                forall|c2: int, r: int|
                    0 <= c2 < c && 0 <= r < rows@.len() ==> (#[trigger] cols@[c2]@[r])
                        == rows@[r]@[c2],
            decreases width - c,
        {
            let mut col: Vec<char> = Vec::new();
            let mut r: usize = 0;
            while r < rows.len()
                invariant
                    r <= rows@.len(),
                    c < width,
                    forall|r2: int| 0 <= r2 < rows@.len() ==> (#[trigger] rows@[r2])@.len() == width,
                    col@.len() == r,
                    forall|r2: int| 0 <= r2 < r ==> (#[trigger] col@[r2]) == rows@[r2]@[c as int],
                decreases rows@.len() - r,
            {
                col.push(rows[r][c]);
                r = r + 1;
            }
            cols.push(col);
            c = c + 1;
        }
        let p = Pattern { rows, cols };
        proof {
            let rv = p.rows@.map_values(|v: Vec<char>| v@);
            assert(forall|r: int| 0 <= r < p.rows@.len() ==> rv[r] == (#[trigger] p.rows@[r])@);
        }
        p
    }

    /// Whether index `i` is a reflection line of the block `r`: the rows just
    /// before and after it mirror each other as far as either side extends.
    pub open spec fn spec_reflection_line(i: int, rows: Seq<Vec<char>>) -> bool {
        forall|idx: int|
            0 <= idx < vstd::math::min(i, rows.len() - i) ==> (#[trigger] rows[i - idx - 1])@
                == rows[i + idx]@
    }

    /// Tests a reflection line the way the block reads it.
    pub fn is_reflection_line(i: usize, r: &Vec<Vec<char>>) -> (res: bool)
        requires
            i <= r@.len(),
        ensures
            res == Self::spec_reflection_line(i as int, r@),
    {
        let n = r.len();
        let half = if i < n - i {
            i
        } else {
            n - i
        };
        let mut idx: usize = 0;
        while idx < half
            invariant
                idx <= half,
                n == r@.len(),
                i <= n,
                half == vstd::math::min(i as int, r@.len() - i),
                forall|k: int| 0 <= k < idx ==> (#[trigger] r@[i - k - 1])@ == r@[i + k]@,
            decreases half - idx,
        {
            proof {
                assert(half <= i && half <= r@.len() - i);
                assert(i + idx < r@.len());
                assert(i - idx - 1 >= 0);
            }
            if !rows_equal(&r[i - idx - 1], &r[i + idx]) {
                return false;
            }
            idx = idx + 1;
        }
        true
    }
}

fn rows_equal(a: &Vec<char>, b: &Vec<char>) -> (r: bool)
    ensures
        r == (a@ == b@),
{
    if a.len() != b.len() {
        return false;
    }
    let mut i: usize = 0;
    while i < a.len()
        invariant
            i <= a@.len(),
            a@.len() == b@.len(),
            forall|k: int| 0 <= k < i ==> a@[k] == b@[k],
        decreases a@.len() - i,
    {
        if a[i] != b[i] {
            return false;
        }
        i = i + 1;
    }
    proof {
        assert(a@ =~= b@);
    }
    true
}

/// Splits the input at blank lines and parses each block into a pattern.
pub fn parse_patterns(input: &str) -> (r: Vec<Pattern>)
    ensures
        r@.len() == spec_split_blank(input@).len(),
        forall|k: int| 0 <= k < r@.len() ==> (#[trigger] r@[k]).rows_match(spec_split_blank(
            input@,
        )[k]),
{
    let cs = chars_of(input);
    let blocks = split_blank(&cs);
    let mut r: Vec<Pattern> = Vec::new();
    let mut i: usize = 0;
    while i < blocks.len()
        invariant
            i <= blocks@.len(),
            blocks@.len() == spec_split_blank(cs@).len(),
            forall|k: int| 0 <= k < blocks@.len() ==> blocks@[k]@ == spec_split_blank(cs@)[k],
            r@.len() == i,
            forall|k: int| 0 <= k < i ==> (#[trigger] r@[k]).rows_match(spec_split_blank(cs@)[k]),
        decreases blocks@.len() - i,
    {
        let p = Pattern::from_chars(&blocks[i]);
        r.push(p);
        i = i + 1;
    }
    r
}

} // verus!
