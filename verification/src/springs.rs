//! Spring condition records: each row lists springs (`.` sound, `#` damaged,
//! `?` unknown) and the sizes of the damaged groups; the unknowns are brute
//! forced and each assignment is checked against the group sizes.

use vstd::prelude::*;
use crate::text::{chars_of, split_lines, split_char, split_ws, parse_u32, trim};

verus! {

/// The damaged-group sizes a record reads as: maximal runs of `#`, in order.
pub open spec fn spec_groups_acc(s: Seq<char>, cur: int) -> Seq<int>
    decreases s.len(),
{
    if s.len() == 0 {
        if cur > 0 {
            seq![cur]
        } else {
            Seq::empty()
        }
    } else if s[0] == '#' {
        spec_groups_acc(s.skip(1), cur + 1)
    } else if cur > 0 {
        seq![cur] + spec_groups_acc(s.skip(1), 0)
    } else {
        spec_groups_acc(s.skip(1), 0)
    }
}

/// Whether a record's damaged groups are exactly the listed sizes.
pub open spec fn spec_matches_groups(s: Seq<char>, d: Seq<u32>) -> bool {
    let g = spec_groups_acc(s, 0);
    g.len() == d.len() && forall|i: int| 0 <= i < g.len() ==> #[trigger] g[i] == d[i]
}

/// One row: its springs and the damaged-group sizes beside them.
pub struct Row {
    pub springs: Vec<char>,
    pub damaged_groups_size: Vec<u32>,
}

impl Row {
    /// Reads one row: the spring record, then comma-separated group sizes;
    /// empty or unreadable size tokens are passed over.
    pub fn new(input: &str) -> (r: Row)
    {
        let cs0 = chars_of(input);
        let cs = trim(&cs0);
        let tokens = split_ws(&cs);
        let springs: Vec<char> = if tokens.len() >= 1 {
            let mut v: Vec<char> = Vec::new();
            let t = &tokens[0];
            let mut i: usize = 0;
            while i < t.len()
                invariant
                    i <= t@.len(),
                decreases t@.len() - i,
            {
                v.push(t[i]);
                i = i + 1;
            }
            v
        } else {
            Vec::new()
        };
        let mut damaged_groups_size: Vec<u32> = Vec::new();
        if tokens.len() >= 2 {
            let parts = split_char(&tokens[1], ',');
            let mut i: usize = 0;
            while i < parts.len()
                invariant
                    i <= parts@.len(),
                decreases parts@.len() - i,
            {
                if parts[i].len() > 0 {
                    match parse_u32(&parts[i]) {
                        Some(v) => {
                            damaged_groups_size.push(v);
                        },
                        None => {},
                    }
                }
                i = i + 1;
            }
        }
        Row { springs, damaged_groups_size }
    }

    /// Whether a fully assigned record's damaged groups are exactly this
    /// row's listed sizes.
    #[verifier::loop_isolation(false)]
    pub fn springs_match_predicates(&self, springs: &Vec<char>) -> (r: bool)
        ensures
            r == spec_matches_groups(springs@, self.damaged_groups_size@),
    {
        let n = springs.len();
        let mut groups: Vec<u64> = Vec::new();
        let ghost mut done: Seq<int> = Seq::empty();
        let mut cur: u64 = 0;
        let mut i: usize = 0;
        proof {
            assert(springs@.skip(0) =~= springs@);
            assert(done + spec_groups_acc(springs@, 0) =~= spec_groups_acc(springs@, 0));
        }
        while i < springs.len()
            invariant
                i <= n,
                n == springs@.len(),
                groups@.len() == done.len(),
                forall|k: int| 0 <= k < done.len() ==> groups@[k] == done[k],
                cur <= i,
                spec_groups_acc(springs@, 0) == done + spec_groups_acc(
                    springs@.skip(i as int),
                    cur as int,
                ),
            decreases springs@.len() - i,
        {
            proof {
                assert(springs@.skip(i as int).len() == springs@.len() - i);
                assert(springs@.skip(i as int)[0] == springs@[i as int]);
                assert(springs@.skip(i as int).skip(1) =~= springs@.skip(i + 1));
            }
            let c = springs[i];
            if c == '#' {
                cur = cur + 1;
            } else {
                if cur > 0 {
                    let ghost dp = done;
                    groups.push(cur);
                    proof {
                        done = done.push(cur as int);
                        assert(dp + (seq![cur as int] + spec_groups_acc(springs@.skip(i + 1), 0))
                            =~= done + spec_groups_acc(springs@.skip(i + 1), 0));
                    }
                    cur = 0;
                }
            }
            i = i + 1;
        }
        proof {
            assert(springs@.skip(i as int) =~= Seq::<char>::empty());
        }
        if cur > 0 {
            let ghost dp = done;
            groups.push(cur);
            proof {
                done = done.push(cur as int);
                assert(dp + seq![cur as int] =~= done);
            }
        } else {
            proof {
                assert(done + Seq::<int>::empty() =~= done);
            }
        }
        proof {
            assert(spec_groups_acc(springs@, 0) == done);
            assert(groups@.len() == done.len());
            assert(forall|j: int| 0 <= j < done.len() ==> groups@[j] == done[j]);
        }
        // compare the groups against the listed sizes
        if groups.len() != self.damaged_groups_size.len() {
            return false;
        }
        let mut k: usize = 0;
        while k < groups.len()
            invariant
                k <= groups@.len(),
                forall|j: int| 0 <= j < k ==> done[j] == self.damaged_groups_size@[j],
            decreases groups@.len() - k,
        {
            if groups[k] != self.damaged_groups_size[k] as u64 {
                proof {
                    let g = spec_groups_acc(springs@, 0);
                    assert(g[k as int] == done[k as int]);
                    assert(done[k as int] == groups@[k as int]);
                    assert(g[k as int] != self.damaged_groups_size@[k as int]);
                }
                return false;
            }
            k = k + 1;
        }
        true
    }

    /// Brute forces every assignment of the unknown springs and counts those
    /// whose damaged groups are exactly the listed sizes; a row with more
    /// unknowns than the search can enumerate reports zero.
    #[verifier::loop_isolation(false)]
    pub fn count_possibilities(&self) -> (r: u32)
    {
        let n = self.springs.len();
        // the positions of the unknowns
        let mut unknowns: Vec<usize> = Vec::new();
        let mut i: usize = 0;
        while i < n
            invariant
                i <= n,
                n == self.springs@.len(),
                forall|k: int| 0 <= k < unknowns@.len() ==> #[trigger] unknowns@[k] < n,
            decreases n - i,
        {
            if self.springs[i] == '?' {
                unknowns.push(i);
            }
            i = i + 1;
        }
        let q = unknowns.len();
        if q > 20 {
            return 0;
        }
        let total: u32 = 1u32 << (q as u32);
        let mut count: u32 = 0;
        let mut mask: u32 = 0;
        while mask < total
            invariant
                count <= mask,
                n == self.springs@.len(),
                q == unknowns@.len(),
                forall|k: int| 0 <= k < unknowns@.len() ==> #[trigger] unknowns@[k] < n,
            decreases total - mask,
        {
            // build the record for this assignment
            let mut candidate: Vec<char> = Vec::new();
            let mut i: usize = 0;
            while i < n
                invariant
                    i <= n,
                    n == self.springs@.len(),
                    candidate@.len() == i,
                decreases n - i,
            {
                candidate.push(self.springs[i]);
                i = i + 1;
            }
            let mut k: usize = 0;
            while k < q
                invariant
                    k <= q,
                    q == unknowns@.len(),
                    candidate@.len() == n,
                    forall|j: int| 0 <= j < unknowns@.len() ==> #[trigger] unknowns@[j] < n,
                decreases q - k,
            {
                let pos = unknowns[k];
                let bit = (mask >> (k as u32)) & 1;
                let slot = &mut candidate[pos];
                *slot = if bit == 1 {
                    '#'
                } else {
                    '.'
                };
                k = k + 1;
            }
            if self.springs_match_predicates(&candidate) {
                count = count + 1;
            }
            mask = mask + 1;
        }
        count
    }
}

/// All the rows of a record sheet.
pub struct SpringMap {
    pub rows: Vec<Row>,
}

impl SpringMap {
    /// Reads one row per line.
    pub fn new(input: &str) -> (r: SpringMap)
    {
        let cs = chars_of(input);
        let ls = split_lines(&cs);
        let mut rows: Vec<Row> = Vec::new();
        let mut i: usize = 0;
        while i < ls.len()
            invariant
                i <= ls@.len(),
            decreases ls@.len() - i,
        {
            let t = trim(&ls[i]);
            let s = crate::text::string_of(&t);
            rows.push(Row::new(s.as_str()));
            i = i + 1;
        }
        SpringMap { rows }
    }

    /// Sums the assignment counts of all rows; zero where the sum leaves the
    /// range.
    pub fn count_possibilities(&self) -> (r: u32)
    {
        let mut sum: u32 = 0;
        let mut i: usize = 0;
        while i < self.rows.len()
            invariant
                i <= self.rows@.len(),
            decreases self.rows@.len() - i,
        {
            let c = self.rows[i].count_possibilities();
            if c > u32::MAX - sum {
                return 0;
            }
            sum = sum + c;
            i = i + 1;
        }
        sum
    }
}

} // verus!
