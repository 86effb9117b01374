//! The boat races over wide counters: the same rules as `races`, with 64-bit
//! times and distances, and a second task that reads all the digits on each
//! line as one single long race.

use vstd::prelude::*;
use crate::text::{chars_of, split_lines, split_ws, parse_u64, spec_lines, spec_split_ws,
    spec_parse_u64};

verus! {

/// A boat charged for `time` milliseconds.
pub struct Boat {
    pub time: u64,
}

impl Boat {
    pub fn new(time: u64) -> (r: Boat)
        ensures
            r.time == time,
    {
        Boat { time }
    }

    /// The distance covered in a race: speed equals the charge time, travel
    /// lasts for the remainder of the race.
    pub fn get_distance(&self, race_duration: u64) -> (r: u64)
        requires
            self.time <= race_duration,
            (race_duration - self.time) * self.time <= u64::MAX,
        ensures
            r == (race_duration - self.time) * self.time,
    {
        (race_duration - self.time) * self.time
    }
}

/// One race: its duration and its record distance.
pub struct Race {
    pub time: u64,
    pub distance: u64,
}

/// How many of the charge times below `upto` beat the record.
pub open spec fn spec_win_count(time: int, distance: int, upto: int) -> int
    decreases upto,
{
    if upto <= 0 {
        0
    } else {
        spec_win_count(time, distance, upto - 1) + if (time - (upto - 1)) * (upto - 1)
            > distance {
            1int
        } else {
            0int
        }
    }
}

pub proof fn lemma_win_count_bound(time: int, distance: int, upto: int)
    ensures
        0 <= spec_win_count(time, distance, upto) <= if upto >= 0 {
            upto
        } else {
            0
        },
    decreases upto,
{
    if upto > 0 {
        lemma_win_count_bound(time, distance, upto - 1);
    }
}

impl Race {
    pub fn new(time: u64, distance: u64) -> (r: Race)
        ensures
            r.time == time,
            r.distance == distance,
    {
        Race { time, distance }
    }

    /// Counts the charge times that win the race.
    pub fn count_winning_possibilities(&self) -> (r: u64)
        requires
            self.time * self.time <= u64::MAX,
        ensures
            r == spec_win_count(self.time as int, self.distance as int, self.time as int),
    {
        let mut count: u64 = 0;
        let mut t: u64 = 0;
        proof {
            lemma_win_count_bound(self.time as int, self.distance as int, self.time as int);
        }
        while t < self.time
            invariant
                t <= self.time,
                self.time * self.time <= u64::MAX,
                count == spec_win_count(self.time as int, self.distance as int, t as int),
                count <= t,
            decreases self.time - t,
        {
            proof {
                assert((self.time - t) * t <= self.time * self.time) by (nonlinear_arith)
                    requires
                        0 <= t <= self.time,
                ;
            }
            let boat = Boat::new(t);
            if boat.get_distance(self.time) > self.distance {
                count = count + 1;
            }
            t = t + 1;
        }
        count
    }
}

/// The fold the race product performs, as in `races`, over 64-bit values.
pub open spec fn spec_race_fold(ts: Seq<Seq<char>>, ds: Seq<Seq<char>>, i: int, acc: u64) -> Option<
    u64,
>
    decreases ts.len() - i,
{
    if i >= ts.len() {
        Some(acc)
    } else if i >= ds.len() {
        None
    } else {
        match (spec_parse_u64(ts[i]), spec_parse_u64(ds[i])) {
            (Some(t), Some(d)) => {
                if t * t > u64::MAX {
                    None
                } else {
                    let w = spec_win_count(t as int, d as int, t as int);
                    let acc2 = if w > 0 {
                        acc * w
                    } else {
                        acc as int
                    };
                    if acc2 > u64::MAX {
                        None
                    } else {
                        spec_race_fold(ts, ds, i + 1, acc2 as u64)
                    }
                }
            },
            _ => None,
        }
    }
}

/// What `sum_race_results` returns here, as in `races`, over 64-bit values.
pub open spec fn spec_sum_race_results(s: Seq<char>) -> u64 {
    let ls = spec_lines(s);
    if ls.len() < 2 {
        0u64
    } else {
        match spec_race_fold(spec_split_ws(ls[0]), spec_split_ws(ls[1]), 1, 1u64) {
            Some(v) => v,
            None => 0u64,
        }
    }
}

/// Multiplies the winning-possibility counts of all races on the two input
/// lines (times, then distances), skipping races nobody can win.
#[verifier::loop_isolation(false)]
pub fn sum_race_results(input: &str) -> (r: u64)
    ensures
        r == spec_sum_race_results(input@),
{
    let chars = chars_of(input);
    let ls = split_lines(&chars);
    if ls.len() < 2 {
        return 0;
    }
    let times = split_ws(&ls[0]);
    let distances = split_ws(&ls[1]);
    let ghost tss = spec_split_ws(spec_lines(input@)[0]);
    let ghost dss = spec_split_ws(spec_lines(input@)[1]);
    let mut multiply: u64 = 1;
    let mut i: usize = 1;
    while i < times.len()
        invariant
            1 <= i,
            i <= times@.len() || i == 1,
            times@.len() == tss.len(),
            forall|k: int| 0 <= k < times@.len() ==> times@[k]@ == tss[k],
            distances@.len() == dss.len(),
            forall|k: int| 0 <= k < distances@.len() ==> distances@[k]@ == dss[k],
            spec_race_fold(tss, dss, 1, 1u64) == spec_race_fold(tss, dss, i as int, multiply),
        decreases times@.len() - i,
    {
        if i >= distances.len() {
            return 0;
        }
        let t = match parse_u64(&times[i]) {
            Some(t) => t,
            None => {
                return 0;
            },
        };
        let d = match parse_u64(&distances[i]) {
            Some(d) => d,
            None => {
                return 0;
            },
        };
        proof {
            assert((t as u128) * (t as u128) <= u64::MAX as u128 * u64::MAX as u128)
                by (nonlinear_arith)
                requires
                    0 <= t as u128 <= u64::MAX as u128,
            ;
        }
        if t as u128 * t as u128 > u64::MAX as u128 {
            return 0;
        }
        let race = Race::new(t, d);
        let wp = race.count_winning_possibilities();
        if wp > 0 {
            proof {
                assert((multiply as u128) * (wp as u128) <= u64::MAX as u128
                    * u64::MAX as u128) by (nonlinear_arith)
                    requires
                        0 <= multiply as u128 <= u64::MAX as u128,
                        0 <= wp as u128 <= u64::MAX as u128,
                ;
            }
            let wide = multiply as u128 * wp as u128;
            if wide > u64::MAX as u128 {
                return 0;
            }
            multiply = wide as u64;
        }
        i = i + 1;
    }
    multiply
}

/// The concatenation of the digit tokens of the races from index `i` on.
pub open spec fn spec_concat_tokens(ts: Seq<Seq<char>>, i: int) -> Seq<char>
    decreases ts.len() - i,
{
    if i >= ts.len() {
        Seq::empty()
    } else {
        ts[i] + spec_concat_tokens(ts, i + 1)
    }
}

/// What the single-race task returns: each line's tokens past the first are
/// glued into one number, and the one resulting race is counted; zero where a
/// line is missing, the glued text is no `u64`, or the square of the time
/// does not fit.
pub open spec fn spec_sum_race_results_task2(s: Seq<char>) -> u64 {
    let ls = spec_lines(s);
    if ls.len() < 2 {
        0u64
    } else {
        let t = spec_parse_u64(spec_concat_tokens(spec_split_ws(ls[0]), 1));
        let d = spec_parse_u64(spec_concat_tokens(spec_split_ws(ls[1]), 1));
        match (t, d) {
            (Some(t), Some(d)) => if t * t > u64::MAX {
                0u64
            } else {
                spec_win_count(t as int, d as int, t as int) as u64
            },
            _ => 0u64,
        }
    }
}

/// Glues the tokens of a line past the first into one character sequence.
fn concat_tokens(tokens: &Vec<Vec<char>>, ghost_tss: Ghost<Seq<Seq<char>>>) -> (r: Vec<char>)
    requires
        tokens@.len() == ghost_tss@.len(),
        forall|k: int| 0 <= k < tokens@.len() ==> tokens@[k]@ == ghost_tss@[k],
    ensures
        r@ == spec_concat_tokens(ghost_tss@, 1),
{
    let mut r: Vec<char> = Vec::new();
    let mut i: usize = 1;
    proof {
        assert(r@ + spec_concat_tokens(ghost_tss@, 1) =~= spec_concat_tokens(ghost_tss@, 1));
    }
    while i < tokens.len()
        invariant
            1 <= i,
            i <= tokens@.len() || i == 1,
            tokens@.len() == ghost_tss@.len(),
            forall|k: int| 0 <= k < tokens@.len() ==> tokens@[k]@ == ghost_tss@[k],
            spec_concat_tokens(ghost_tss@, 1) == r@ + spec_concat_tokens(ghost_tss@, i as int),
        decreases tokens@.len() - i,
    {
        let tok = &tokens[i];
        let mut j: usize = 0;
        let ghost rp = r@;
        while j < tok.len()
            invariant
                j <= tok@.len(),
                r@ == rp + tok@.subrange(0, j as int),
            decreases tok@.len() - j,
        {
            r.push(tok[j]);
            proof {
                assert(rp + tok@.subrange(0, j + 1) =~= r@);
            }
            j = j + 1;
        }
        proof {
            assert(tok@.subrange(0, tok@.len() as int) =~= tok@);
            assert(rp + (tok@ + spec_concat_tokens(ghost_tss@, i + 1)) =~= r@ + spec_concat_tokens(
                ghost_tss@,
                i + 1,
            ));
        }
        i = i + 1;
    }
    proof {
        assert(r@ + Seq::<char>::empty() =~= r@);
    }
    r
}

/// Treats all the digits on each of the two lines as one long race and counts
/// its winning charge times.
#[verifier::loop_isolation(false)]
pub fn sum_race_results_task2(input: &str) -> (r: u64)
    ensures
        r == spec_sum_race_results_task2(input@),
{
    let chars = chars_of(input);
    let ls = split_lines(&chars);
    if ls.len() < 2 {
        return 0;
    }
    let times = split_ws(&ls[0]);
    let distances = split_ws(&ls[1]);
    let ghost tss = spec_split_ws(spec_lines(input@)[0]);
    let ghost dss = spec_split_ws(spec_lines(input@)[1]);
    let time_digits = concat_tokens(&times, Ghost(tss));
    let dist_digits = concat_tokens(&distances, Ghost(dss));
    let t = match parse_u64(&time_digits) {
        Some(t) => t,
        None => {
            return 0;
        },
    };
    let d = match parse_u64(&dist_digits) {
        Some(d) => d,
        None => {
            return 0;
        },
    };
    proof {
        assert((t as u128) * (t as u128) <= u64::MAX as u128 * u64::MAX as u128)
            by (nonlinear_arith)
            requires
                0 <= t as u128 <= u64::MAX as u128,
        ;
    }
    if t as u128 * t as u128 > u64::MAX as u128 {
        return 0;
    }
    let race = Race::new(t, d);
    let w = race.count_winning_possibilities();
    proof {
        lemma_win_count_bound(t as int, d as int, t as int);
    }
    w
}

} // verus!
