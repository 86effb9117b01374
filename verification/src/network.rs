//! The desert network: a cycle of left/right directions and a map of nodes
//! to their left and right neighbors, walked until a target is reached.

use vstd::prelude::*;
use crate::text::{chars_of, split_lines, split_char, trim, spec_lines, spec_trim};

verus! {

/// One node: its name and its left and right neighbors.
pub struct NodeEntry {
    pub name: Vec<char>,
    pub left: Vec<char>,
    pub right: Vec<char>,
}

/// The network: the direction cycle and the node entries in input order.
pub struct ElfMap {
    pub directions: Vec<char>,
    pub instructions: Vec<NodeEntry>,
}

fn names_equal(a: &Vec<char>, b: &Vec<char>) -> (r: bool)
    ensures
        r == (a@ == b@),
{
    if a.len() != b.len() {
        return false;
    }
    let mut i: usize = 0;
    while i < a.len()
        invariant
            i <= a@.len(),
            a@.len() == b@.len(),
            forall|k: int| 0 <= k < i ==> a@[k] == b@[k],
        decreases a@.len() - i,
    {
        if a[i] != b[i] {
            return false;
        }
        i = i + 1;
    }
    proof {
        assert(a@ =~= b@);
    }
    true
}

fn clone_name(a: &Vec<char>) -> (r: Vec<char>)
    ensures
        r@ == a@,
{
    let mut out: Vec<char> = Vec::new();
    let mut i: usize = 0;
    while i < a.len()
        invariant
            i <= a@.len(),
            out@ == a@.subrange(0, i as int),
        decreases a@.len() - i,
    {
        out.push(a[i]);
        proof {
            assert(out@ =~= a@.subrange(0, i + 1));
        }
        i = i + 1;
    }
    proof {
        assert(out@ =~= a@);
    }
    out
}

impl ElfMap {
    /// Reads the network: the first line's characters are the directions,
    /// and every later line of the shape `name = (left, right)` one node;
    /// lines of another shape are passed over.
    pub fn new(input: &str) -> (r: ElfMap)
        ensures
            spec_lines(input@).len() > 0 ==> r.directions@ == spec_trim(spec_lines(input@)[0]),
            spec_lines(input@).len() == 0 ==> r.directions@.len() == 0,
    {
        let cs = chars_of(input);
        let ls = split_lines(&cs);
        let directions: Vec<char> = if ls.len() > 0 {
            trim(&ls[0])
        } else {
            Vec::new()
        };
        let mut instructions: Vec<NodeEntry> = Vec::new();
        let mut i: usize = 1;
        while i < ls.len()
            invariant
                1 <= i,
                i <= ls@.len() || i == 1,
            decreases ls@.len() - i,
        {
            let halves = split_char(&ls[i], '=');
            if halves.len() == 2 {
                let name = trim(&halves[0]);
                // the pair: drop everything up to '(' and after ')'
                let inner0 = split_char(&halves[1], '(');
                if inner0.len() >= 2 {
                    let inner1 = split_char(&inner0[1], ')');
                    let pair = split_char(&inner1[0], ',');
                    if pair.len() == 2 && name.len() > 0 {
                        let left = trim(&pair[0]);
                        let right = trim(&pair[1]);
                        instructions.push(NodeEntry { name, left, right });
                    }
                }
            }
            i = i + 1;
        }
        ElfMap { directions, instructions }
    }

    /// The first entry with the given name.
    fn find_node(&self, name: &Vec<char>) -> (r: Option<usize>)
        ensures
            r matches Some(i) ==> i < self.instructions@.len(),
    {
        let mut i: usize = 0;
        while i < self.instructions.len()
            invariant
                i <= self.instructions@.len(),
            decreases self.instructions@.len() - i,
        {
            if names_equal(&self.instructions[i].name, name) {
                return Some(i);
            }
            i = i + 1;
        }
        None
    }

    /// Walks from one node toward another, following the direction cycle,
    /// and counts the steps to the first arrival. A walk that cannot arrive
    /// — a missing node, an unknown direction, or more steps than there are
    /// (node, cycle position) pairs — reports zero.
    pub fn goto(&self, from: &str, to: &str) -> (r: u32)
    {
        let from_cs = chars_of(from);
        let to_cs = chars_of(to);
        self.goto_chars(&from_cs, &to_cs)
    }

    /// As `goto`, over already split names.
    pub fn goto_chars(&self, from: &Vec<char>, to: &Vec<char>) -> (r: u32)
    {
        if self.directions.len() == 0 {
            return 0;
        }
        if names_equal(from, to) {
            return 0;
        }
        let nd = self.directions.len();
        let nn = self.instructions.len();
        proof {
            assert(nd as u128 * nn as u128 <= u64::MAX as u128 * u64::MAX as u128)
                by (nonlinear_arith)
                requires
                    0 <= nd as u128 <= u64::MAX as u128,
                    0 <= nn as u128 <= u64::MAX as u128,
            ;
        }
        let cap_wide: u128 = nd as u128 * nn as u128 + 1;
        let cap: u64 = if cap_wide > u64::MAX as u128 {
            u64::MAX
        } else {
            cap_wide as u64
        };
        let mut current = clone_name(from);
        let mut count: u64 = 0;
        let mut di: usize = 0;
        let mut fuel: u64 = cap;
        while fuel > 0
            invariant
                di < nd || nd == 0,
                nd == self.directions@.len(),
                nd > 0,
            decreases fuel,
        {
            fuel = fuel - 1;
            let idx = match self.find_node(&current) {
                Some(idx) => idx,
                None => {
                    return 0;
                },
            };
            let d = self.directions[di];
            let next = if d == 'L' {
                clone_name(&self.instructions[idx].left)
            } else if d == 'R' {
                clone_name(&self.instructions[idx].right)
            } else {
                return 0;
            };
            current = next;
            if count == u64::MAX {
                return 0;
            }
            count = count + 1;
            di = if di + 1 < nd {
                di + 1
            } else {
                0
            };
            if names_equal(&current, to) {
                if count > u32::MAX as u64 {
                    return 0;
                }
                return count as u32;
            }
        }
        0
    }

    /// Walks every node ending in `A` in step, following the direction
    /// cycle, until all of them stand on nodes ending in `Z`, and counts the
    /// steps; a walk that cannot finish within the combined state bound
    /// reports zero.
    pub fn ghosts_goto(&self) -> (r: u32)
    {
        if self.directions.len() == 0 {
            return 0;
        }
        let mut start: Vec<Vec<char>> = Vec::new();
        let mut i: usize = 0;
        while i < self.instructions.len()
            invariant
                i <= self.instructions@.len(),
            decreases self.instructions@.len() - i,
        {
            let name = &self.instructions[i].name;
            if name.len() >= 3 && name[2] == 'A' {
                start.push(clone_name(name));
            }
            i = i + 1;
        }
        if start.len() == 0 {
            return 0;
        }
        let nd = self.directions.len();
        let mut count: u64 = 0;
        let mut di: usize = 0;
        let mut fuel: u64 = u32::MAX as u64;
        while fuel > 0
            invariant
                di < nd || nd == 0,
                nd == self.directions@.len(),
                nd > 0,
            decreases fuel,
        {
            fuel = fuel - 1;
            let d = self.directions[di];
            if d != 'L' && d != 'R' {
                return 0;
            }
            let mut k: usize = 0;
            let m = start.len();
            let mut next: Vec<Vec<char>> = Vec::new();
            while k < m
                invariant
                    k <= m,
                    m == start@.len(),
                decreases m - k,
            {
                let idx = match self.find_node(&start[k]) {
                    Some(idx) => idx,
                    None => {
                        return 0;
                    },
                };
                let step = if d == 'L' {
                    clone_name(&self.instructions[idx].left)
                } else {
                    clone_name(&self.instructions[idx].right)
                };
                next.push(step);
                k = k + 1;
            }
            start = next;
            if count == u64::MAX {
                return 0;
            }
            count = count + 1;
            di = if di + 1 < nd {
                di + 1
            } else {
                0
            };
            // are all walkers on a terminal node?
            let mut all_done = true;
            let mut k: usize = 0;
            while k < start.len()
                invariant
                    k <= start@.len(),
                decreases start@.len() - k,
            {
                let name = &start[k];
                if !(name.len() >= 3 && name[2] == 'Z') {
                    all_done = false;
                }
                k = k + 1;
            }
            if all_done {
                if count > u32::MAX as u64 {
                    return 0;
                }
                return count as u32;
            }
        }
        0
    }
}

/// Counts the steps of the walk from node `AAA` to node `ZZZ`.
pub fn count_steps(input: &str) -> (r: u32)
{
    let elf_map = ElfMap::new(input);
    elf_map.goto("AAA", "ZZZ")
}

/// Counts the steps of the simultaneous ghost walk from every `..A` node to
/// all-`..Z` nodes.
pub fn count_ghosts_steps(input: &str) -> (r: u32)
{
    let elf_map = ElfMap::new(input);
    elf_map.ghosts_goto()
}

} // verus!
