//! Sequence extrapolation: each history line carries a number sequence, its
//! chain of difference sequences, and the next value each level predicts.

use vstd::prelude::*;
use crate::text::{chars_of, split_lines, split_ws, parse_i64, spec_lines, spec_split_ws,
    spec_parse_i64};

verus! {

/// A history level: a sequence and, unless it is all zero (or too short, or a
/// difference left the range), the level of its pairwise differences.
pub struct History {
    pub sequence: Vec<i64>,
    pub next: Option<Box<History>>,
}

/// All entries are zero.
pub open spec fn spec_all_zero(s: Seq<i64>) -> bool {
    forall|k: int| 0 <= k < s.len() ==> s[k] == 0
}

/// The pairwise differences, where every difference stays in range.
pub open spec fn spec_diffs(s: Seq<i64>) -> Option<Seq<i64>> {
    if forall|k: int|
        0 <= k < s.len() - 1 ==> i64::MIN <= (#[trigger] s[k + 1]) - s[k] <= i64::MAX {
        Some(Seq::new((s.len() - 1) as nat, |k: int| (s[k + 1] - s[k]) as i64))
    } else {
        None
    }
}

impl History {
    /// The structural invariant: below every level sit its differences, and a
    /// level without one is all zero and nonempty, empty, or one whose
    /// differences cannot be taken.
    pub open spec fn wf(self) -> bool
        decreases self,
    {
        match self.next {
            None => self.sequence@.len() == 0 || (self.sequence@.len() > 0 && spec_all_zero(
                self.sequence@,
            )) || spec_diffs(self.sequence@) is None,
            Some(child) => {
                &&& !(self.sequence@.len() > 0 && spec_all_zero(self.sequence@))
                &&& self.sequence@.len() > 0
                &&& spec_diffs(self.sequence@) matches Some(d) && child.sequence@ == d
                &&& child.wf()
            },
        }
    }

    /// The next value this level predicts: its last entry plus the child's
    /// prediction, `None` where a sum leaves the range; an absent child
    /// predicts its last entry (zero when empty).
    pub open spec fn spec_next_value(self) -> Option<i64>
        decreases self,
    {
        match self.next {
            None => if self.sequence@.len() == 0 {
                Some(0i64)
            } else {
                Some(self.sequence@.last())
            },
            Some(child) => match child.spec_next_value() {
                None => None,
                Some(step) => {
                    if self.sequence@.len() == 0 {
                        None
                    } else if i64::MIN <= self.sequence@.last() + step <= i64::MAX {
                        Some((self.sequence@.last() + step) as i64)
                    } else {
                        None
                    }
                },
            },
        }
    }

    /// Builds the difference chain under a sequence of values.
    fn from_values(values: Vec<i64>) -> (r: History)
        ensures
            r.sequence@ == values@,
            r.wf(),
        decreases values@.len(),
    {
        if values.len() == 0 {
            return History { sequence: values, next: None };
        }
        let mut all_zero = true;
        let mut i: usize = 0;
        while i < values.len()
            invariant
                i <= values@.len(),
                all_zero == (forall|k: int| 0 <= k < i ==> values@[k] == 0),
            decreases values@.len() - i,
        {
            if values[i] != 0 {
                all_zero = false;
            }
            i = i + 1;
        }
        if all_zero {
            return History { sequence: values, next: None };
        }
        let mut diffs: Vec<i64> = Vec::new();
        let mut i: usize = 0;
        while i < values.len() - 1
            invariant
                values@.len() > 0,
                i <= values@.len() - 1,
                diffs@.len() == i,
                forall|k: int|
                    0 <= k < i ==> #[trigger] diffs@[k] == values@[k + 1] - values@[k],
            decreases values@.len() - 1 - i,
        {
            let a = values[i];
            let b = values[i + 1];
            if (b >= 0 && a < b - i64::MAX) || (b < 0 && a > b - i64::MIN) {
                return History { sequence: values, next: None };
            }
            proof {
                assert(i64::MIN <= (values@[i as int + 1] - values@[i as int]) <= i64::MAX);
            }
            let ghost dp = diffs@;
            diffs.push(b - a);
            proof {
                assert forall|k: int|
                    0 <= k < i + 1 implies #[trigger] diffs@[k] == values@[k + 1] - values@[k] by {
                    if k < i {
                        assert(diffs@[k] == dp[k]);
                        assert(dp[k] == values@[k + 1] - values@[k]);
                    } else {
                        assert(diffs@[k] == values@[k + 1] - values@[k]);
                    }
                }
            }
            i = i + 1;
        }
        proof {
            assert forall|k: int|
                0 <= k < values@.len() - 1 implies i64::MIN <= (#[trigger] values@[k + 1])
                - values@[k] <= i64::MAX by {
                assert(diffs@[k] == values@[k + 1] - values@[k]);
            }
            assert(spec_diffs(values@) matches Some(d) && diffs@ =~= d);
        }
        let child = History::from_values(diffs);
        History { sequence: values, next: Some(Box::new(child)) }
    }

    /// Parses one line of whitespace-separated numbers into its difference
    /// chain; a line with an unreadable number gives the empty history.
    pub fn new(input: &str) -> (r: History)
        ensures
            r.wf(),
            r.sequence@ == match spec_parse_values(spec_split_ws(input@), 0) {
                Some(vs) => vs,
                None => Seq::<i64>::empty(),
            },
    {
        let cs = chars_of(input);
        line_history(&cs)
    }

    /// The next value of this history: the checked sum of the last entries
    /// down the chain; zero where a sum leaves the range.
    pub fn get_next_history_value(&self) -> (r: i64)
        ensures
            r == match self.spec_next_value() {
                Some(v) => v,
                None => 0i64,
            },
        decreases *self,
    {
        match &self.next {
            None => {
                if self.sequence.len() == 0 {
                    0
                } else {
                    self.sequence[self.sequence.len() - 1]
                }
            },
            Some(child) => {
                let step = child.get_next_history_value();
                proof {
                    if child.spec_next_value() is None {
                        assert(step == 0);
                    }
                }
                if child_failed(child) {
                    return 0;
                }
                if self.sequence.len() == 0 {
                    return 0;
                }
                let last = self.sequence[self.sequence.len() - 1];
                if (step >= 0 && last > i64::MAX - step) || (step < 0 && last < i64::MIN - step) {
                    return 0;
                }
                last + step
            },
        }
    }
}

/// Whether a child level's prediction failed; failure and a zero prediction
/// are told apart here.
fn child_failed(child: &History) -> (r: bool)
    ensures
        r == (child.spec_next_value() is None),
    decreases *child,
{
    match &child.next {
        None => false,
        Some(grand) => {
            if child_failed(grand) {
                return true;
            }
            if child.sequence.len() == 0 {
                return true;
            }
            let step = next_value_of(grand);
            let last = child.sequence[child.sequence.len() - 1];
            (step >= 0 && last > i64::MAX - step) || (step < 0 && last < i64::MIN - step)
        },
    }
}

/// The predicted value of a level known not to have failed.
fn next_value_of(h: &History) -> (r: i64)
    requires
        h.spec_next_value() is Some,
    ensures
        Some(r) == h.spec_next_value(),
    decreases *h,
{
    match &h.next {
        None => {
            if h.sequence.len() == 0 {
                0
            } else {
                h.sequence[h.sequence.len() - 1]
            }
        },
        Some(grand) => {
            let step = next_value_of(grand);
            let last = h.sequence[h.sequence.len() - 1];
            last + step
        },
    }
}

/// The value a sequence extrapolates to: the last entry plus what the
/// difference sequence extrapolates to; an empty sequence gives zero, an
/// all-zero or non-differentiable one its last entry; `None` where a checked
/// sum leaves the range.
pub open spec fn spec_extrapolate(s: Seq<i64>) -> Option<i64>
    decreases s.len(),
{
    if s.len() == 0 {
        Some(0i64)
    } else if spec_all_zero(s) {
        Some(s.last())
    } else {
        match spec_diffs(s) {
            None => Some(s.last()),
            Some(d) => match spec_extrapolate(d) {
                None => None,
                Some(step) => if i64::MIN <= s.last() + step <= i64::MAX {
                    Some((s.last() + step) as i64)
                } else {
                    None
                },
            },
        }
    }
}

/// A well-formed history predicts exactly what its top sequence extrapolates
/// to.
pub proof fn lemma_next_value_extrapolate(h: History)
    requires
        h.wf(),
    ensures
        h.spec_next_value() == spec_extrapolate(h.sequence@),
    decreases h,
{
    match h.next {
        None => {},
        Some(child) => {
            lemma_next_value_extrapolate(*child);
        },
    }
}

/// The values written on a line, where every token is a number.
pub open spec fn spec_parse_values(ts: Seq<Seq<char>>, i: int) -> Option<Seq<i64>>
    decreases ts.len() - i,
{
    if i >= ts.len() {
        Some(Seq::empty())
    } else {
        match spec_parse_i64(ts[i]) {
            None => None,
            Some(v) => match spec_parse_values(ts, i + 1) {
                None => None,
                Some(rest) => Some(seq![v] + rest),
            },
        }
    }
}

/// The next value one line predicts: the extrapolation of its numbers, with
/// zero for an unreadable line or an out-of-range sum.
pub open spec fn spec_line_next(l: Seq<char>) -> i64 {
    match spec_parse_values(spec_split_ws(l), 0) {
        None => 0i64,
        Some(vs) => match spec_extrapolate(vs) {
            None => 0i64,
            Some(v) => v,
        },
    }
}

/// The checked sum of the lines' next values; `None` where a sum leaves the
/// range.
pub open spec fn spec_sum_next(ls: Seq<Seq<char>>, i: int, acc: i64) -> Option<i64>
    decreases ls.len() - i,
{
    if i >= ls.len() {
        Some(acc)
    } else {
        let v = spec_line_next(ls[i]);
        if i64::MIN <= acc + v <= i64::MAX {
            spec_sum_next(ls, i + 1, (acc + v) as i64)
        } else {
            None
        }
    }
}

/// Sums the next values of all lines; zero where the sum leaves the range.
#[verifier::loop_isolation(false)]
pub fn get_next_history_values(input: &str) -> (r: i64)
    ensures
        r == match spec_sum_next(spec_lines(input@), 0, 0i64) {
            Some(v) => v,
            None => 0i64,
        },
{
    let cs = chars_of(input);
    let ls = split_lines(&cs);
    let ghost lss = spec_lines(input@);
    let mut sum: i64 = 0;
    let mut i: usize = 0;
    while i < ls.len()
        invariant
            i <= ls@.len(),
            spec_sum_next(lss, 0, 0i64) == spec_sum_next(lss, i as int, sum),
        decreases ls@.len() - i,
    {
        let h = line_history(&ls[i]);
        let v = h.get_next_history_value();
        proof {
            lemma_next_value_extrapolate(h);
            assert(v == spec_line_next(lss[i as int]));
        }
        if (v >= 0 && sum > i64::MAX - v) || (v < 0 && sum < i64::MIN - v) {
            return 0;
        }
        sum = sum + v;
        i = i + 1;
    }
    sum
}

/// Parses one line's characters into its difference chain.
#[verifier::loop_isolation(false)]
fn line_history(l: &Vec<char>) -> (r: History)
    ensures
        r.wf(),
        r.sequence@ == match spec_parse_values(spec_split_ws(l@), 0) {
            Some(vs) => vs,
            None => Seq::<i64>::empty(),
        },
{
    let tokens = split_ws(l);
    let ghost tss = spec_split_ws(l@);
    let mut values: Vec<i64> = Vec::new();
    let mut i: usize = 0;
    while i < tokens.len()
        invariant
            i <= tokens@.len(),
            tokens@.len() == tss.len(),
            forall|k: int| 0 <= k < tokens@.len() ==> tokens@[k]@ == tss[k],
            spec_parse_values(tss, 0) matches Some(vs) ==> spec_parse_values(tss, i as int)
                matches Some(rest) && vs == values@ + rest,
            spec_parse_values(tss, 0) is None ==> spec_parse_values(tss, i as int) is None,
        decreases tokens@.len() - i,
    {
        match parse_i64(&tokens[i]) {
            Some(v) => {
                let ghost vp = values@;
                values.push(v);
                proof {
                    if spec_parse_values(tss, 0) matches Some(vs) {
                        assert(spec_parse_values(tss, i as int) matches Some(rest0) ==> rest0
                            == seq![v] + spec_parse_values(tss, i + 1)->Some_0);
                        assert(vp + (seq![v] + spec_parse_values(tss, i + 1)->Some_0)
                            =~= values@ + spec_parse_values(tss, i + 1)->Some_0);
                    }
                }
            },
            None => {
                let empty: Vec<i64> = Vec::new();
                proof {
                    assert(empty@ =~= Seq::<i64>::empty());
                }
                return History::from_values(empty);
            },
        }
        i = i + 1;
    }
    proof {
        if spec_parse_values(tss, 0) matches Some(vs) {
            assert(values@ + Seq::<i64>::empty() =~= values@);
        }
    }
    History::from_values(values)
}

} // verus!
