//! Toy boat races: for each race, how many charge times beat the record
//! distance, and the product of those counts over all races.

use vstd::prelude::*;
use crate::text::{chars_of, split_lines, split_ws, parse_u32, spec_lines, spec_split_ws,
    spec_parse_u32};

verus! {

/// A boat charged for `time` milliseconds.
pub struct Boat {
    pub time: u32,
}

impl Boat {
    pub fn new(time: u32) -> (r: Boat)
        ensures
            r.time == time,
    {
        Boat { time }
    }

    /// The distance covered in a race: speed equals the charge time, travel
    /// lasts for the remainder of the race.
    pub fn get_distance(&self, race_duration: u32) -> (r: u32)
        requires
            self.time <= race_duration,
            (race_duration - self.time) * self.time <= u32::MAX,
        ensures
            r == (race_duration - self.time) * self.time,
    {
        (race_duration - self.time) * self.time
    }
}

/// One race: its duration and its record distance.
pub struct Race {
    pub time: u32,
    pub distance: u32,
}

/// How many of the charge times below `upto` beat the record.
pub open spec fn spec_win_count(time: int, distance: int, upto: int) -> int
    decreases upto,
{
    if upto <= 0 {
        0
    } else {
        spec_win_count(time, distance, upto - 1) + if (time - (upto - 1)) * (upto - 1)
            > distance {
            1int
        } else {
            0int
        }
    }
}

pub proof fn lemma_win_count_bound(time: int, distance: int, upto: int)
    ensures
        0 <= spec_win_count(time, distance, upto) <= if upto >= 0 {
            upto
        } else {
            0
        },
    decreases upto,
{
    if upto > 0 {
        lemma_win_count_bound(time, distance, upto - 1);
    }
}

impl Race {
    pub fn new(time: u32, distance: u32) -> (r: Race)
        ensures
            r.time == time,
            r.distance == distance,
    {
        Race { time, distance }
    }

    /// Counts the charge times that win the race.
    pub fn count_winning_possibilities(&self) -> (r: u32)
        requires
            self.time * self.time <= u32::MAX,
        ensures
            r == spec_win_count(self.time as int, self.distance as int, self.time as int),
    {
        let mut count: u32 = 0;
        let mut t: u32 = 0;
        proof {
            lemma_win_count_bound(self.time as int, self.distance as int, self.time as int);
        }
        while t < self.time
            invariant
                t <= self.time,
                self.time * self.time <= u32::MAX,
                count == spec_win_count(self.time as int, self.distance as int, t as int),
                count <= t,
            decreases self.time - t,
        {
            proof {
                assert((self.time - t) * t <= self.time * self.time) by (nonlinear_arith)
                    requires
                        0 <= t <= self.time,
                ;
            }
            let boat = Boat::new(t);
            if boat.get_distance(self.time) > self.distance {
                count = count + 1;
            }
            t = t + 1;
        }
        count
    }
}

/// The fold the race product performs: parse the time and distance tokens of
/// race `i` onward, multiply in each positive win count, and give up (`None`)
/// where a token fails to parse, a distance is missing, or a value leaves the
/// `u32` range.
pub open spec fn spec_race_fold(ts: Seq<Seq<char>>, ds: Seq<Seq<char>>, i: int, acc: u32) -> Option<
    u32,
>
    decreases ts.len() - i,
{
    if i >= ts.len() {
        Some(acc)
    } else if i >= ds.len() {
        None
    } else {
        match (spec_parse_u32(ts[i]), spec_parse_u32(ds[i])) {
            (Some(t), Some(d)) => {
                if t * t > u32::MAX {
                    None
                } else {
                    let w = spec_win_count(t as int, d as int, t as int);
                    let acc2 = if w > 0 {
                        acc * w
                    } else {
                        acc as int
                    };
                    if acc2 > u32::MAX {
                        None
                    } else {
                        spec_race_fold(ts, ds, i + 1, acc2 as u32)
                    }
                }
            },
            _ => None,
        }
    }
}

/// What `sum_race_results` returns: the product of the win counts of the
/// races written in the first two lines, skipping zero counts, starting at
/// the second token; zero where the fold gives up or a line is missing.
pub open spec fn spec_sum_race_results(s: Seq<char>) -> u32 {
    let ls = spec_lines(s);
    if ls.len() < 2 {
        0u32
    } else {
        match spec_race_fold(spec_split_ws(ls[0]), spec_split_ws(ls[1]), 1, 1u32) {
            Some(v) => v,
            None => 0u32,
        }
    }
}

/// Multiplies the winning-possibility counts of all races on the two input
/// lines (times, then distances), skipping races nobody can win.
#[verifier::loop_isolation(false)]
pub fn sum_race_results(input: &str) -> (r: u32)
    ensures
        r == spec_sum_race_results(input@),
{
    let chars = chars_of(input);
    let ls = split_lines(&chars);
    if ls.len() < 2 {
        return 0;
    }
    let times = split_ws(&ls[0]);
    let distances = split_ws(&ls[1]);
    let ghost tss = spec_split_ws(spec_lines(input@)[0]);
    let ghost dss = spec_split_ws(spec_lines(input@)[1]);
    let mut multiply: u32 = 1;
    let mut i: usize = 1;
    while i < times.len()
        invariant
            1 <= i,
            i <= times@.len() || i == 1,
            times@.len() == tss.len(),
            forall|k: int| 0 <= k < times@.len() ==> times@[k]@ == tss[k],
            distances@.len() == dss.len(),
            forall|k: int| 0 <= k < distances@.len() ==> distances@[k]@ == dss[k],
            spec_race_fold(tss, dss, 1, 1u32) == spec_race_fold(tss, dss, i as int, multiply),
        decreases times@.len() - i,
    {
        if i >= distances.len() {
            return 0;
        }
        let t = match parse_u32(&times[i]) {
            Some(t) => t,
            None => {
                return 0;
            },
        };
        let d = match parse_u32(&distances[i]) {
            Some(d) => d,
            None => {
                return 0;
            },
        };
        proof {
            assert((t as u64) * (t as u64) <= u32::MAX as u64 * u32::MAX as u64)
                by (nonlinear_arith)
                requires
                    0 <= t as u64 <= u32::MAX as u64,
            ;
        }
        if t as u64 * t as u64 > u32::MAX as u64 {
            return 0;
        }
        let race = Race::new(t, d);
        let wp = race.count_winning_possibilities();
        if wp > 0 {
            proof {
                assert((multiply as u64) * (wp as u64) <= u32::MAX as u64
                    * u32::MAX as u64) by (nonlinear_arith)
                    requires
                        0 <= multiply as u64 <= u32::MAX as u64,
                        0 <= wp as u64 <= u32::MAX as u64,
                ;
            }
            let wide = multiply as u64 * wp as u64;
            if wide > u32::MAX as u64 {
                return 0;
            }
            multiply = wide as u32;
        }
        i = i + 1;
    }
    multiply
}

} // verus!
