//! The engine schematic: a grid of digits, symbols and blanks; digit runs
//! form part numbers, valid when a symbol sits next to them, and `*` symbols
//! next to two or more numbers are gears.

use vstd::prelude::*;
use crate::text::{chars_of, split_lines, trim, parse_u32, spec_is_digit, is_digit,
    spec_parse_u32, spec_lines, spec_trim};

verus! {

/// What one cell holds: a digit, a symbol, or a blank `.`.
#[derive(Clone, Copy, PartialEq, Eq, Structural, Debug)]
pub enum SchematicDotType {
    Number,
    Symbol,
    Blank,
}

/// The cell type a character stands for.
pub open spec fn spec_find_type(c: char) -> SchematicDotType {
    if spec_is_digit(c) {
        SchematicDotType::Number
    } else if c == '.' {
        SchematicDotType::Blank
    } else {
        SchematicDotType::Symbol
    }
}

pub fn find_type(c: char) -> (r: SchematicDotType)
    ensures
        r == spec_find_type(c),
{
    if is_digit(c) {
        SchematicDotType::Number
    } else if c == '.' {
        SchematicDotType::Blank
    } else {
        SchematicDotType::Symbol
    }
}

/// One cell of the schematic.
#[derive(Clone, Copy, PartialEq, Eq, Structural, Debug)]
pub struct SchematicDot {
    pub row: usize,
    pub col: usize,
    pub value: char,
    pub dot_type: SchematicDotType,
}

impl SchematicDot {
    pub fn new(row: usize, col: usize, value: char) -> (r: SchematicDot)
        ensures
            r.row == row,
            r.col == col,
            r.value == value,
            r.dot_type == spec_find_type(value),
    {
        SchematicDot { row, col, value, dot_type: find_type(value) }
    }

    /// Whether the cell lies inside the closed rectangle.
    pub fn is_included_in(&self, rs: usize, cs: usize, re: usize, ce: usize) -> (r: bool)
        ensures
            r == (self.row >= rs && self.row <= re && self.col >= cs && self.col <= ce),
    {
        self.row >= rs && self.row <= re && self.col >= cs && self.col <= ce
    }
}

/// A run of digits: its text and the closed cell rectangle it covers.
pub struct SchematicValueBox {
    pub value: Vec<char>,
    pub box_start: (usize, usize),
    pub box_end: (usize, usize),
}

impl SchematicValueBox {
    pub fn new(row: usize, col: usize, value: char) -> (r: SchematicValueBox)
        ensures
            r.value@ == seq![value],
            r.box_start == (row, col),
            r.box_end == (row, col),
    {
        let mut v: Vec<char> = Vec::new();
        v.push(value);
        proof {
            assert(v@ =~= seq![value]);
        }
        SchematicValueBox { value: v, box_start: (row, col), box_end: (row, col) }
    }

    /// Appends a digit and widens the rectangle one column, saturating at the
    /// machine's edge.
    pub fn add_value(&mut self, value: char)
        ensures
            final(self).value@ == old(self).value@.push(value),
            final(self).box_start == old(self).box_start,
            final(self).box_end.0 == old(self).box_end.0,
            final(self).box_end.1 == if old(self).box_end.1 < usize::MAX {
                (old(self).box_end.1 + 1) as usize
            } else {
                usize::MAX
            },
    {
        self.value.push(value);
        let (r, c) = self.box_end;
        let c2 = if c < usize::MAX {
            c + 1
        } else {
            usize::MAX
        };
        self.box_end = (r, c2);
    }

    /// Whether a cell touches the rectangle, sides or corners included; the
    /// reach saturates at the machine's edge.
    pub fn is_adjacent_of(&self, row: usize, col: usize) -> (r: bool)
        ensures
            r == {
                let rs = if self.box_start.0 > 0 {
                    self.box_start.0 - 1
                } else {
                    0int
                };
                let cs = if self.box_start.1 > 0 {
                    self.box_start.1 - 1
                } else {
                    0int
                };
                let re = if self.box_end.0 < usize::MAX {
                    self.box_end.0 + 1
                } else {
                    usize::MAX as int
                };
                let ce = if self.box_end.1 < usize::MAX {
                    self.box_end.1 + 1
                } else {
                    usize::MAX as int
                };
                row >= rs && row <= re && col >= cs && col <= ce
            },
    {
        let rs = if self.box_start.0 > 0 {
            self.box_start.0 - 1
        } else {
            0
        };
        let cs = if self.box_start.1 > 0 {
            self.box_start.1 - 1
        } else {
            0
        };
        let re = if self.box_end.0 < usize::MAX {
            self.box_end.0 + 1
        } else {
            usize::MAX
        };
        let ce = if self.box_end.1 < usize::MAX {
            self.box_end.1 + 1
        } else {
            usize::MAX
        };
        row >= rs && row <= re && col >= cs && col <= ce
    }
}

fn clone_box(b: &SchematicValueBox) -> (r: SchematicValueBox)
    ensures
        r.value@ == b.value@,
        r.box_start == b.box_start,
        r.box_end == b.box_end,
{
    let mut value: Vec<char> = Vec::new();
    let mut i: usize = 0;
    while i < b.value.len()
        invariant
            i <= b.value@.len(),
            value@ == b.value@.subrange(0, i as int),
        decreases b.value@.len() - i,
    {
        value.push(b.value[i]);
        proof {
            assert(value@ =~= b.value@.subrange(0, i + 1));
        }
        i = i + 1;
    }
    proof {
        assert(value@ =~= b.value@);
    }
    SchematicValueBox { value, box_start: b.box_start, box_end: b.box_end }
}

/// The cells one trimmed line contributes, from column `j` on.
pub open spec fn spec_row_dots(l: Seq<char>, row: int, j: int) -> Seq<SchematicDot>
    decreases l.len() - j,
{
    if j >= l.len() {
        Seq::empty()
    } else {
        seq![
            SchematicDot {
                row: row as usize,
                col: j as usize,
                value: l[j],
                dot_type: spec_find_type(l[j]),
            },
        ] + spec_row_dots(l, row, j + 1)
    }
}

/// The cells of the trimmed lines from row `r` on, row-major.
pub open spec fn spec_dots_acc(ls: Seq<Seq<char>>, r: int) -> Seq<SchematicDot>
    decreases ls.len() - r,
{
    if r >= ls.len() {
        Seq::empty()
    } else {
        spec_row_dots(spec_trim(ls[r]), r, 0) + spec_dots_acc(ls, r + 1)
    }
}

/// The cells a block of text describes.
pub open spec fn spec_dots_of(s: Seq<char>) -> Seq<SchematicDot> {
    spec_dots_acc(spec_lines(s), 0)
}

/// The digit runs of the cells from index `i` on, with the run being read:
/// each run's text and the closed rectangle it covers. A run still open at
/// the end is dropped, the way the schematic reads its cells.
pub open spec fn spec_boxes_acc(
    dots: Seq<SchematicDot>,
    i: int,
    cur: Option<(Seq<char>, (usize, usize), (usize, usize))>,
) -> Seq<(Seq<char>, (usize, usize), (usize, usize))>
    decreases dots.len() - i,
{
    if i >= dots.len() {
        Seq::empty()
    } else {
        let d = dots[i];
        if d.dot_type == SchematicDotType::Number {
            let nb = match cur {
                Some(b) => (
                    b.0.push(d.value),
                    b.1,
                    (
                        b.2.0,
                        if b.2.1 < usize::MAX {
                            (b.2.1 + 1) as usize
                        } else {
                            usize::MAX
                        },
                    ),
                ),
                None => (seq![d.value], (d.row, d.col), (d.row, d.col)),
            };
            spec_boxes_acc(dots, i + 1, Some(nb))
        } else {
            match cur {
                Some(b) => seq![b] + spec_boxes_acc(dots, i + 1, None),
                None => spec_boxes_acc(dots, i + 1, None),
            }
        }
    }
}

/// The closed digit runs of a schematic's cells.
pub open spec fn spec_boxes_of(dots: Seq<SchematicDot>) -> Seq<
    (Seq<char>, (usize, usize), (usize, usize)),
> {
    spec_boxes_acc(dots, 0, None)
}

/// A held box matches a described run.
pub open spec fn spec_box_matches(
    b: SchematicValueBox,
    t: (Seq<char>, (usize, usize), (usize, usize)),
) -> bool {
    b.value@ == t.0 && b.box_start == t.1 && b.box_end == t.2
}

/// A described run has a symbol cell around it: within its rectangle widened
/// one cell toward each edge within the extents.
pub open spec fn spec_box_valid(
    dots: Seq<SchematicDot>,
    bounds: (usize, usize),
    t: (Seq<char>, (usize, usize), (usize, usize)),
) -> bool {
    exists|k: int|
        0 <= k < dots.len() && (#[trigger] dots[k]).dot_type == SchematicDotType::Symbol && {
            let rs = if t.1.0 > 0 {
                t.1.0 - 1
            } else {
                t.1.0 as int
            };
            let cs = if t.1.1 > 0 {
                t.1.1 - 1
            } else {
                t.1.1 as int
            };
            let re = if t.2.0 < bounds.0 && t.2.0 < usize::MAX {
                t.2.0 + 1
            } else {
                t.2.0 as int
            };
            let ce = if t.2.1 < bounds.1 && t.2.1 < usize::MAX {
                t.2.1 + 1
            } else {
                t.2.1 as int
            };
            dots[k].row >= rs && dots[k].row <= re && dots[k].col >= cs && dots[k].col <= ce
        }
}

/// The described runs with a symbol around them, in order, from index `i` on.
pub open spec fn spec_valid_boxes(
    dots: Seq<SchematicDot>,
    bounds: (usize, usize),
    boxes: Seq<(Seq<char>, (usize, usize), (usize, usize))>,
    i: int,
) -> Seq<(Seq<char>, (usize, usize), (usize, usize))>
    decreases boxes.len() - i,
{
    if i >= boxes.len() {
        Seq::empty()
    } else if spec_box_valid(dots, bounds, boxes[i]) {
        seq![boxes[i]] + spec_valid_boxes(dots, bounds, boxes, i + 1)
    } else {
        spec_valid_boxes(dots, bounds, boxes, i + 1)
    }
}

/// A described run touches the cell, sides and corners included, with the
/// reach saturating at the machine's edge.
pub open spec fn spec_box_adjacent(
    t: (Seq<char>, (usize, usize), (usize, usize)),
    row: usize,
    col: usize,
) -> bool {
    let rs = if t.1.0 > 0 {
        t.1.0 - 1
    } else {
        0int
    };
    let cs = if t.1.1 > 0 {
        t.1.1 - 1
    } else {
        0int
    };
    let re = if t.2.0 < usize::MAX {
        t.2.0 + 1
    } else {
        usize::MAX as int
    };
    let ce = if t.2.1 < usize::MAX {
        t.2.1 + 1
    } else {
        usize::MAX as int
    };
    row >= rs && row <= re && col >= cs && col <= ce
}

/// The described runs touching the cell, in order, from index `i` on.
pub open spec fn spec_adjacent_boxes(
    boxes: Seq<(Seq<char>, (usize, usize), (usize, usize))>,
    row: usize,
    col: usize,
    i: int,
) -> Seq<(Seq<char>, (usize, usize), (usize, usize))>
    decreases boxes.len() - i,
{
    if i >= boxes.len() {
        Seq::empty()
    } else if spec_box_adjacent(boxes[i], row, col) {
        seq![boxes[i]] + spec_adjacent_boxes(boxes, row, col, i + 1)
    } else {
        spec_adjacent_boxes(boxes, row, col, i + 1)
    }
}

/// The gear groups of the cells from index `i` on: for each `*` cell with at
/// least two runs touching it, those runs.
pub open spec fn spec_gear_groups(
    dots: Seq<SchematicDot>,
    boxes: Seq<(Seq<char>, (usize, usize), (usize, usize))>,
    i: int,
) -> Seq<Seq<(Seq<char>, (usize, usize), (usize, usize))>>
    decreases dots.len() - i,
{
    if i >= dots.len() {
        Seq::empty()
    } else if dots[i].value == '*' {
        let adj = spec_adjacent_boxes(boxes, dots[i].row, dots[i].col, 0);
        if adj.len() >= 2 {
            seq![adj] + spec_gear_groups(dots, boxes, i + 1)
        } else {
            spec_gear_groups(dots, boxes, i + 1)
        }
    } else {
        spec_gear_groups(dots, boxes, i + 1)
    }
}

/// The schematic: its cells, row-major, and its row and column extents.
pub struct EngineSchematic {
    pub dots: Vec<SchematicDot>,
    pub boundaries: (usize, usize),
}

impl EngineSchematic {
    /// Reads the schematic: each trimmed line becomes one row of cells, and
    /// the extents are the line count and the first line's width.
    #[verifier::loop_isolation(false)]
    pub fn from(input: &str) -> (r: EngineSchematic)
        ensures
            r.dots@ == spec_dots_of(input@),
            r.boundaries.0 == spec_lines(input@).len(),
            spec_lines(input@).len() > 0 ==> r.boundaries.1 == spec_trim(
                spec_lines(input@)[0],
            ).len(),
            spec_lines(input@).len() == 0 ==> r.boundaries.1 == 0,
    {
        let cs = chars_of(input);
        let ls = split_lines(&cs);
        let ghost lss = spec_lines(input@);
        let rows = ls.len();
        let mut dots: Vec<SchematicDot> = Vec::new();
        let mut cols: usize = 0;
        let mut row: usize = 0;
        proof {
            assert(dots@ + spec_dots_acc(lss, 0) =~= spec_dots_acc(lss, 0));
        }
        while row < ls.len()
            invariant
                row <= ls@.len(),
                row == 0 ==> cols == 0,
                row > 0 ==> cols == spec_trim(lss[0]).len(),
                spec_dots_of(input@) == dots@ + spec_dots_acc(lss, row as int),
            decreases ls@.len() - row,
        {
            let line = trim(&ls[row]);
            if row == 0 {
                cols = line.len();
            }
            let ghost t = spec_trim(lss[row as int]);
            let mut col: usize = 0;
            proof {
                assert(line@ == t);
                assert(spec_dots_acc(lss, row as int) == spec_row_dots(t, row as int, 0)
                    + spec_dots_acc(lss, row + 1));
            }
            while col < line.len()
                invariant
                    col <= line@.len(),
                    row < ls@.len(),
                    line@ == t,
                    spec_dots_of(input@) == dots@ + spec_row_dots(t, row as int, col as int)
                        + spec_dots_acc(lss, row + 1),
                decreases line@.len() - col,
            {
                let ghost dp = dots@;
                dots.push(SchematicDot::new(row, col, line[col]));
                proof {
                    assert(spec_row_dots(t, row as int, col as int) == seq![dots@.last()]
                        + spec_row_dots(t, row as int, col + 1));
                    assert(dp + (seq![dots@.last()] + spec_row_dots(t, row as int, col + 1))
                        + spec_dots_acc(lss, row + 1) =~= dots@ + spec_row_dots(
                        t,
                        row as int,
                        col + 1,
                    ) + spec_dots_acc(lss, row + 1));
                }
                col = col + 1;
            }
            proof {
                assert(spec_row_dots(t, row as int, col as int) =~= Seq::<SchematicDot>::empty());
                assert(dots@ + Seq::<SchematicDot>::empty() + spec_dots_acc(lss, row + 1)
                    =~= dots@ + spec_dots_acc(lss, row + 1));
            }
            row = row + 1;
        }
        proof {
            assert(dots@ + Seq::<SchematicDot>::empty() =~= dots@);
        }
        EngineSchematic { dots, boundaries: (rows, cols) }
    }

    /// Folds the cells into digit runs: consecutive digit cells extend the
    /// run, any other cell closes it; a run still open at the last cell is
    /// dropped with it.
    #[verifier::loop_isolation(false)]
    pub fn find_value_boxes(&self) -> (r: Vec<SchematicValueBox>)
        ensures
            r@.len() == spec_boxes_of(self.dots@).len(),
            forall|k: int|
                0 <= k < r@.len() ==> spec_box_matches(
                    #[trigger] r@[k],
                    spec_boxes_of(self.dots@)[k],
                ),
    {
        let mut boxes: Vec<SchematicValueBox> = Vec::new();
        let mut current: Option<SchematicValueBox> = None;
        let ghost mut done: Seq<(Seq<char>, (usize, usize), (usize, usize))> = Seq::empty();
        let ghost mut curs: Option<(Seq<char>, (usize, usize), (usize, usize))> = None;
        let mut i: usize = 0;
        proof {
            assert(done + spec_boxes_acc(self.dots@, 0, curs) =~= spec_boxes_acc(
                self.dots@,
                0,
                curs,
            ));
        }
        while i < self.dots.len()
            invariant
                i <= self.dots@.len(),
                boxes@.len() == done.len(),
                forall|k: int|
                    0 <= k < done.len() ==> spec_box_matches(#[trigger] boxes@[k], done[k]),
                match (current, curs) {
                    (Some(b), Some(t)) => spec_box_matches(b, t),
                    (None, None) => true,
                    _ => false,
                },
                spec_boxes_of(self.dots@) == done + spec_boxes_acc(self.dots@, i as int, curs),
            decreases self.dots@.len() - i,
        {
            let dot = self.dots[i];
            let is_number = match dot.dot_type {
                SchematicDotType::Number => true,
                _ => false,
            };
            if is_number {
                current = match current {
                    Some(mut b) => {
                        b.add_value(dot.value);
                        proof {
                            curs = match curs {
                                Some(t) => Some(
                                    (
                                        t.0.push(dot.value),
                                        t.1,
                                        (
                                            t.2.0,
                                            if t.2.1 < usize::MAX {
                                                (t.2.1 + 1) as usize
                                            } else {
                                                usize::MAX
                                            },
                                        ),
                                    ),
                                ),
                                None => None,
                            };
                        }
                        Some(b)
                    },
                    None => {
                        proof {
                            curs = Some(
                                (seq![dot.value], (dot.row, dot.col), (dot.row, dot.col)),
                            );
                        }
                        Some(SchematicValueBox::new(dot.row, dot.col, dot.value))
                    },
                };
            } else {
                match current {
                    Some(b) => {
                        let ghost dp = done;
                        let ghost t = curs->Some_0;
                        boxes.push(b);
                        current = None;
                        proof {
                            done = done.push(t);
                            curs = None;
                            assert(dp + (seq![t] + spec_boxes_acc(self.dots@, i + 1, curs))
                                =~= done + spec_boxes_acc(self.dots@, i + 1, curs));
                        }
                    },
                    None => {},
                }
            }
            i = i + 1;
        }
        proof {
            assert(done + Seq::<(Seq<char>, (usize, usize), (usize, usize))>::empty() =~= done);
        }
        boxes
    }

    /// Whether a symbol cell touches the box's rectangle widened one cell
    /// toward each edge within the extents, the way the schematic reads it.
    #[verifier::loop_isolation(false)]
    pub fn has_symbol_around(&self, current_box: &SchematicValueBox) -> (res: bool)
        ensures
            res == exists|k: int|
                0 <= k < self.dots@.len() && (#[trigger] self.dots@[k]).dot_type
                    == SchematicDotType::Symbol && {
                    let rs = if current_box.box_start.0 > 0 {
                        current_box.box_start.0 - 1
                    } else {
                        current_box.box_start.0 as int
                    };
                    let cs = if current_box.box_start.1 > 0 {
                        current_box.box_start.1 - 1
                    } else {
                        current_box.box_start.1 as int
                    };
                    let re = if current_box.box_end.0 < self.boundaries.0 && current_box.box_end.0
                        < usize::MAX {
                        current_box.box_end.0 + 1
                    } else {
                        current_box.box_end.0 as int
                    };
                    let ce = if current_box.box_end.1 < self.boundaries.1 && current_box.box_end.1
                        < usize::MAX {
                        current_box.box_end.1 + 1
                    } else {
                        current_box.box_end.1 as int
                    };
                    self.dots@[k].row >= rs && self.dots@[k].row <= re && self.dots@[k].col >= cs
                        && self.dots@[k].col <= ce
                },
    {
        let rs = if current_box.box_start.0 > 0 {
            current_box.box_start.0 - 1
        } else {
            current_box.box_start.0
        };
        let cs = if current_box.box_start.1 > 0 {
            current_box.box_start.1 - 1
        } else {
            current_box.box_start.1
        };
        let re = if current_box.box_end.0 < self.boundaries.0 && current_box.box_end.0
            < usize::MAX {
            current_box.box_end.0 + 1
        } else {
            current_box.box_end.0
        };
        let ce = if current_box.box_end.1 < self.boundaries.1 && current_box.box_end.1
            < usize::MAX {
            current_box.box_end.1 + 1
        } else {
            current_box.box_end.1
        };
        let mut i: usize = 0;
        while i < self.dots.len()
            invariant
                i <= self.dots@.len(),
                forall|k: int|
                    0 <= k < i ==> !((#[trigger] self.dots@[k]).dot_type
                        == SchematicDotType::Symbol && self.dots@[k].row >= rs && self.dots@[k].row
                        <= re && self.dots@[k].col >= cs && self.dots@[k].col <= ce),
            decreases self.dots@.len() - i,
        {
            let dot = self.dots[i];
            let is_symbol = match dot.dot_type {
                SchematicDotType::Symbol => true,
                _ => false,
            };
            if is_symbol && dot.is_included_in(rs, cs, re, ce) {
                return true;
            }
            i = i + 1;
        }
        false
    }

    /// The digit runs with a symbol around them, in reading order.
    #[verifier::loop_isolation(false)]
    pub fn find_valid_value_boxes(&self) -> (r: Vec<SchematicValueBox>)
        ensures
            ({
                let vs = spec_valid_boxes(
                    self.dots@,
                    self.boundaries,
                    spec_boxes_of(self.dots@),
                    0,
                );
                r@.len() == vs.len() && forall|k: int|
                    0 <= k < r@.len() ==> spec_box_matches(#[trigger] r@[k], vs[k])
            }),
    {
        let all = self.find_value_boxes();
        let ghost bs = spec_boxes_of(self.dots@);
        let ghost mut done: Seq<(Seq<char>, (usize, usize), (usize, usize))> = Seq::empty();
        let mut boxes: Vec<SchematicValueBox> = Vec::new();
        let mut i: usize = 0;
        proof {
            assert(done + spec_valid_boxes(self.dots@, self.boundaries, bs, 0)
                =~= spec_valid_boxes(self.dots@, self.boundaries, bs, 0));
        }
        while i < all.len()
            invariant
                i <= all@.len(),
                all@.len() == bs.len(),
                forall|k: int|
                    0 <= k < all@.len() ==> spec_box_matches(#[trigger] all@[k], bs[k]),
                boxes@.len() == done.len(),
                forall|k: int|
                    0 <= k < done.len() ==> spec_box_matches(#[trigger] boxes@[k], done[k]),
                spec_valid_boxes(self.dots@, self.boundaries, bs, 0) == done + spec_valid_boxes(
                    self.dots@,
                    self.boundaries,
                    bs,
                    i as int,
                ),
            decreases all@.len() - i,
        {
            if self.has_symbol_around(&all[i]) {
                proof {
                    assert(spec_box_valid(self.dots@, self.boundaries, bs[i as int]));
                }
                let ghost dp = done;
                boxes.push(clone_box(&all[i]));
                proof {
                    done = done.push(bs[i as int]);
                    assert(dp + (seq![bs[i as int]] + spec_valid_boxes(
                        self.dots@,
                        self.boundaries,
                        bs,
                        i + 1,
                    )) =~= done + spec_valid_boxes(self.dots@, self.boundaries, bs, i + 1));
                }
            } else {
                proof {
                    assert(!spec_box_valid(self.dots@, self.boundaries, bs[i as int]));
                }
            }
            i = i + 1;
        }
        proof {
            assert(done + Seq::<(Seq<char>, (usize, usize), (usize, usize))>::empty() =~= done);
        }
        boxes
    }

    /// For each `*` cell with at least two adjacent digit runs, the group of
    /// those runs, in reading order.
    #[verifier::loop_isolation(false)]
    pub fn find_valid_gear_symbols(&self) -> (r: Vec<Vec<SchematicValueBox>>)
        ensures
            ({
                let gs = spec_gear_groups(self.dots@, spec_boxes_of(self.dots@), 0);
                &&& r@.len() == gs.len()
                &&& (forall|g: int| 0 <= g < r@.len() ==> (#[trigger] r@[g])@.len() == gs[g].len())
                &&& (forall|g: int, k: int|
                    0 <= g < r@.len() && 0 <= k < gs[g].len() ==> spec_box_matches(
                        #[trigger] r@[g]@[k],
                        gs[g][k],
                    ))
            }),
    {
        let ghost bs = spec_boxes_of(self.dots@);
        let ghost mut done: Seq<Seq<(Seq<char>, (usize, usize), (usize, usize))>> = Seq::empty();
        let mut vec_boxes: Vec<Vec<SchematicValueBox>> = Vec::new();
        let all = self.find_value_boxes();
        let mut i: usize = 0;
        proof {
            assert(done + spec_gear_groups(self.dots@, bs, 0) =~= spec_gear_groups(
                self.dots@,
                bs,
                0,
            ));
        }
        while i < self.dots.len()
            invariant
                i <= self.dots@.len(),
                all@.len() == bs.len(),
                forall|k: int|
                    0 <= k < all@.len() ==> spec_box_matches(#[trigger] all@[k], bs[k]),
                vec_boxes@.len() == done.len(),
                forall|g: int|
                    0 <= g < done.len() ==> (#[trigger] vec_boxes@[g])@.len() == done[g].len(),
                forall|g: int, k: int|
                    0 <= g < done.len() && 0 <= k < done[g].len() ==> spec_box_matches(
                        #[trigger] vec_boxes@[g]@[k],
                        done[g][k],
                    ),
                spec_gear_groups(self.dots@, bs, 0) == done + spec_gear_groups(
                    self.dots@,
                    bs,
                    i as int,
                ),
            decreases self.dots@.len() - i,
        {
            let dot = self.dots[i];
            if dot.value == '*' {
                let mut current_boxes: Vec<SchematicValueBox> = Vec::new();
                let ghost mut adj: Seq<(Seq<char>, (usize, usize), (usize, usize))> = Seq::empty();
                let mut j: usize = 0;
                proof {
                    assert(adj + spec_adjacent_boxes(bs, dot.row, dot.col, 0)
                        =~= spec_adjacent_boxes(bs, dot.row, dot.col, 0));
                }
                while j < all.len()
                    invariant
                        j <= all@.len(),
                        all@.len() == bs.len(),
                        forall|k: int|
                            0 <= k < all@.len() ==> spec_box_matches(#[trigger] all@[k], bs[k]),
                        current_boxes@.len() == adj.len(),
                        forall|k: int|
                            0 <= k < adj.len() ==> spec_box_matches(
                                #[trigger] current_boxes@[k],
                                adj[k],
                            ),
                        spec_adjacent_boxes(bs, dot.row, dot.col, 0) == adj + spec_adjacent_boxes(
                            bs,
                            dot.row,
                            dot.col,
                            j as int,
                        ),
                    decreases all@.len() - j,
                {
                    if all[j].is_adjacent_of(dot.row, dot.col) {
                        proof {
                            assert(spec_box_adjacent(bs[j as int], dot.row, dot.col));
                        }
                        let ghost ap = adj;
                        current_boxes.push(clone_box(&all[j]));
                        proof {
                            adj = adj.push(bs[j as int]);
                            assert(ap + (seq![bs[j as int]] + spec_adjacent_boxes(
                                bs,
                                dot.row,
                                dot.col,
                                j + 1,
                            )) =~= adj + spec_adjacent_boxes(bs, dot.row, dot.col, j + 1));
                        }
                    } else {
                        proof {
                            assert(!spec_box_adjacent(bs[j as int], dot.row, dot.col));
                        }
                    }
                    j = j + 1;
                }
                proof {
                    let es = Seq::<(Seq<char>, (usize, usize), (usize, usize))>::empty();
                    assert(adj + es =~= adj);
                }
                if current_boxes.len() >= 2 {
                    let ghost dp = done;
                    vec_boxes.push(current_boxes);
                    proof {
                        done = done.push(adj);
                        assert(dp + (seq![adj] + spec_gear_groups(self.dots@, bs, i + 1))
                            =~= done + spec_gear_groups(self.dots@, bs, i + 1));
                    }
                }
            }
            i = i + 1;
        }
        proof {
            assert(done + Seq::<Seq<(Seq<char>, (usize, usize), (usize, usize))>>::empty()
                =~= done);
        }
        vec_boxes
    }
}

/// The checked sum of the values of described runs from index `i` on;
/// `None` where a run does not read as a number in range or the sum leaves
/// the range.
pub open spec fn spec_parts_fold(
    vs: Seq<(Seq<char>, (usize, usize), (usize, usize))>,
    i: int,
    acc: u32,
) -> Option<u32>
    decreases vs.len() - i,
{
    if i >= vs.len() {
        Some(acc)
    } else {
        match spec_parse_u32(vs[i].0) {
            Some(v) => if acc + v > u32::MAX {
                None
            } else {
                spec_parts_fold(vs, i + 1, (acc + v) as u32)
            },
            None => None,
        }
    }
}

/// Sums the part numbers: the values of the digit runs with a symbol around
/// them; runs that do not read as a number in range, and sums out of range,
/// give zero.
/// What the part-number sum of a block of text is: the checked sum over its
/// valid digit runs, zero where it cannot be formed.
pub open spec fn spec_sum_engine_parts(s: Seq<char>) -> u32 {
    let dots = spec_dots_of(s);
    let bounds = (
        spec_lines(s).len() as usize,
        if spec_lines(s).len() > 0 {
            spec_trim(spec_lines(s)[0]).len() as usize
        } else {
            0usize
        },
    );
    match spec_parts_fold(spec_valid_boxes(dots, bounds, spec_boxes_of(dots), 0), 0, 0u32) {
        Some(v) => v,
        None => 0u32,
    }
}

#[verifier::loop_isolation(false)]
pub fn sum_engine_parts(input: &str) -> (r: u32)
    ensures
        r == spec_sum_engine_parts(input@),
{
    let schematic = EngineSchematic::from(input);
    let valid = schematic.find_valid_value_boxes();
    let ghost vs = spec_valid_boxes(
        schematic.dots@,
        schematic.boundaries,
        spec_boxes_of(schematic.dots@),
        0,
    );
    let mut sum: u32 = 0;
    let mut i: usize = 0;
    while i < valid.len()
        invariant
            i <= valid@.len(),
            valid@.len() == vs.len(),
            forall|k: int|
                0 <= k < valid@.len() ==> spec_box_matches(#[trigger] valid@[k], vs[k]),
            spec_parts_fold(vs, 0, 0u32) == spec_parts_fold(vs, i as int, sum),
        decreases valid@.len() - i,
    {
        match parse_u32(&valid[i].value) {
            Some(v) => {
                if v > u32::MAX - sum {
                    return 0;
                }
                sum = sum + v;
            },
            None => {
                return 0;
            },
        }
        i = i + 1;
    }
    proof {
        assert(spec_parts_fold(vs, 0, 0u32) == Some(sum));
    }
    sum
}

/// The checked product of the values of a gear group's runs from index `j`
/// on; `None` where a value does not read as a number in range or the
/// product leaves the range.
pub open spec fn spec_group_product(
    vs: Seq<(Seq<char>, (usize, usize), (usize, usize))>,
    j: int,
    acc: u32,
) -> Option<u32>
    decreases vs.len() - j,
{
    if j >= vs.len() {
        Some(acc)
    } else {
        match spec_parse_u32(vs[j].0) {
            Some(v) => if acc * v > u32::MAX {
                None
            } else {
                spec_group_product(vs, j + 1, (acc * v) as u32)
            },
            None => None,
        }
    }
}

/// The checked sum of the gear groups' products from index `i` on.
pub open spec fn spec_gears_fold(
    gs: Seq<Seq<(Seq<char>, (usize, usize), (usize, usize))>>,
    i: int,
    acc: u32,
) -> Option<u32>
    decreases gs.len() - i,
{
    if i >= gs.len() {
        Some(acc)
    } else {
        match spec_group_product(gs[i], 0, 1u32) {
            Some(p) => if acc + p > u32::MAX {
                None
            } else {
                spec_gears_fold(gs, i + 1, (acc + p) as u32)
            },
            None => None,
        }
    }
}

/// What the gear-ratio sum of a block of text is: the checked sum of the
/// products over its gear groups, zero where it cannot be formed.
pub open spec fn spec_sum_gear_ratio(s: Seq<char>) -> u32 {
    let dots = spec_dots_of(s);
    match spec_gears_fold(spec_gear_groups(dots, spec_boxes_of(dots), 0), 0, 0u32) {
        Some(v) => v,
        None => 0u32,
    }
}

/// Sums the gear ratios: for each gear, the product of its adjacent run
/// values; unreadable values, and products or sums out of range, give zero.
#[verifier::loop_isolation(false)]
pub fn sum_gear_ratio(input: &str) -> (r: u32)
    ensures
        r == spec_sum_gear_ratio(input@),
{
    let schematic = EngineSchematic::from(input);
    let gears = schematic.find_valid_gear_symbols();
    let ghost gs = spec_gear_groups(
        schematic.dots@,
        spec_boxes_of(schematic.dots@),
        0,
    );
    let mut sum: u32 = 0;
    let mut i: usize = 0;
    while i < gears.len()
        invariant
            i <= gears@.len(),
            gears@.len() == gs.len(),
            forall|g: int| 0 <= g < gears@.len() ==> (#[trigger] gears@[g])@.len() == gs[g].len(),
            forall|g: int, k: int|
                0 <= g < gears@.len() && 0 <= k < gs[g].len() ==> spec_box_matches(
                    #[trigger] gears@[g]@[k],
                    gs[g][k],
                ),
            spec_gears_fold(gs, 0, 0u32) == spec_gears_fold(gs, i as int, sum),
        decreases gears@.len() - i,
    {
        let group = &gears[i];
        let mut mul: u32 = 1;
        let mut j: usize = 0;
        while j < group.len()
            invariant
                j <= group@.len(),
                group@ == gears@[i as int]@,
                i < gears@.len(),
                spec_group_product(gs[i as int], 0, 1u32) == spec_group_product(
                    gs[i as int],
                    j as int,
                    mul,
                ),
            decreases group@.len() - j,
        {
            match parse_u32(&group[j].value) {
                Some(v) => {
                    proof {
                        assert(mul as u64 * v as u64 <= u32::MAX as u64 * u32::MAX as u64)
                            by (nonlinear_arith)
                            requires
                                0 <= mul as u64 <= u32::MAX as u64,
                                0 <= v as u64 <= u32::MAX as u64,
                        ;
                    }
                    let wide = mul as u64 * v as u64;
                    if wide > u32::MAX as u64 {
                        return 0;
                    }
                    mul = wide as u32;
                },
                None => {
                    return 0;
                },
            }
            j = j + 1;
        }
        if mul > u32::MAX - sum {
            return 0;
        }
        sum = sum + mul;
        i = i + 1;
    }
    sum
}

} // verus!
