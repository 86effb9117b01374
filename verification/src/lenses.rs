//! The lens library: a character-fold hash, initialization instructions, and
//! 256 light boxes whose slots hold labeled lenses.

use vstd::prelude::*;
use crate::text::{chars_of, split_char, trim, parse_u64, spec_split_char, spec_trim,
    spec_parse_u64};

verus! {

/// The running hash: add the character's code, multiply by 17, keep the
/// remainder modulo 256.
pub open spec fn spec_hash_acc(s: Seq<char>, acc: int) -> int
    decreases s.len(),
{
    if s.len() == 0 {
        acc
    } else {
        spec_hash_acc(s.skip(1), ((acc + s[0] as u32) * 17) % 256)
    }
}

/// The hash of a whole piece, started at zero.
pub open spec fn spec_hash(s: Seq<char>) -> int {
    spec_hash_acc(s, 0)
}

pub proof fn lemma_hash_range(s: Seq<char>, acc: int)
    requires
        0 <= acc < 256,
    ensures
        0 <= spec_hash_acc(s, acc) < 256,
    decreases s.len(),
{
    if s.len() > 0 {
        lemma_hash_range(s.skip(1), ((acc + s[0] as u32) * 17) % 256);
    }
}

/// Folds the characters of a piece into its box number.
pub fn hash_string(s: &str) -> (r: usize)
    ensures
        r == spec_hash(s@),
        r < 256,
{
    let cs = chars_of(s);
    let mut acc: u64 = 0;
    let mut i: usize = 0;
    proof {
        assert(cs@.skip(0) =~= cs@);
        lemma_hash_range(s@, 0);
    }
    while i < cs.len()
        invariant
            i <= cs@.len(),
            acc < 256,
            spec_hash(s@) == spec_hash_acc(cs@.skip(i as int), acc as int),
        decreases cs@.len() - i,
    {
        proof {
            assert(cs@.skip(i as int).len() == cs@.len() - i);
            assert(cs@.skip(i as int)[0] == cs@[i as int]);
            assert(cs@.skip(i as int).skip(1) =~= cs@.skip(i + 1));
        }
        let c = cs[i];
        let cv = c as u32;
        acc = ((acc + cv as u64) * 17) % 256;
        i = i + 1;
    }
    proof {
        assert(cs@.skip(i as int) =~= Seq::<char>::empty());
    }
    acc as usize
}

/// One initialization step: remove the labeled lens, or set it to a focal
/// length.
pub struct Instruction {
    pub label: Vec<char>,
    pub operation: char,
    pub box_number: usize,
    pub lens: Option<usize>,
}

/// The index of the first `-` or `=` in a piece.
pub open spec fn spec_op_index(s: Seq<char>, i: int) -> Option<int>
    decreases s.len() - i,
{
    if i >= s.len() {
        None
    } else if s[i] == '-' || s[i] == '=' {
        Some(i)
    } else {
        spec_op_index(s, i + 1)
    }
}

/// A trimmed piece holds an operation, and for `=` a focal length in range.
pub open spec fn spec_instruction_ok(t: Seq<char>) -> bool {
    match spec_op_index(t, 0) {
        Some(i) => t[i] == '=' ==> (match spec_parse_u64(t.skip(i + 1)) {
            Some(v) => v <= usize::MAX,
            None => false,
        }),
        None => false,
    }
}

/// What the parsed instruction holds of its trimmed piece.
pub open spec fn spec_instruction_matches(ins: Instruction, t: Seq<char>) -> bool {
    match spec_op_index(t, 0) {
        Some(i) => {
            &&& ins.label@ == t.take(i)
            &&& ins.operation == t[i]
            &&& ins.box_number == spec_hash(ins.label@)
            &&& (ins.operation == '=' ==> (match spec_parse_u64(t.skip(i + 1)) {
                Some(v) => ins.lens == Some(v as usize),
                None => false,
            }))
            &&& (ins.operation != '=' ==> ins.lens is None)
        },
        None => false,
    }
}

impl Instruction {
    /// Splits a piece at its first `-` or `=`: the label before it, the
    /// operation itself, the label's box number, and for `=` the focal length
    /// written after it. `None` when no operation or no valid focal length is
    /// present.
    #[verifier::loop_isolation(false)]
    pub fn new(s: &str) -> (r: Option<Instruction>)
        ensures
            r is Some <==> spec_instruction_ok(spec_trim(s@)),
            r matches Some(ins) ==> spec_instruction_matches(ins, spec_trim(s@)),
    {
        let cs0 = chars_of(s);
        let cs = trim(&cs0);
        let mut i: usize = 0;
        proof {
            assert(spec_op_index(cs@, 0) == spec_op_index(cs@, 0));
        }
        while i < cs.len()
            invariant
                0 <= i <= cs@.len(),
                spec_op_index(cs@, 0) == spec_op_index(cs@, i as int),
                forall|k: int| 0 <= k < i ==> cs@[k] != '-' && cs@[k] != '=',
            decreases cs@.len() - i,
        {
            let c = cs[i];
            if c == '-' || c == '=' {
                let mut label: Vec<char> = Vec::new();
                let mut j: usize = 0;
                while j < i
                    invariant
                        j <= i <= cs@.len(),
                        label@ == cs@.subrange(0, j as int),
                    decreases i - j,
                {
                    label.push(cs[j]);
                    proof {
                        assert(label@ =~= cs@.subrange(0, j + 1));
                    }
                    j = j + 1;
                }
                proof {
                    assert(label@ =~= cs@.take(i as int));
                }
                let mut rest: Vec<char> = Vec::new();
                let mut j: usize = i + 1;
                while j < cs.len()
                    invariant
                        i + 1 <= j <= cs@.len(),
                        rest@ == cs@.subrange(i + 1, j as int),
                    decreases cs@.len() - j,
                {
                    rest.push(cs[j]);
                    proof {
                        assert(rest@ =~= cs@.subrange(i + 1, j + 1));
                    }
                    j = j + 1;
                }
                proof {
                    assert(rest@ =~= cs@.skip(i + 1));
                }
                let lens: Option<usize> = if c == '=' {
                    match parse_u64(&rest) {
                        Some(v) => {
                            if v <= usize::MAX as u64 {
                                Some(v as usize)
                            } else {
                                return None;
                            }
                        },
                        None => {
                            return None;
                        },
                    }
                } else {
                    None
                };
                let mut label_str: Vec<char> = label;
                let box_number = hash_chars(&label_str);
                return Some(
                    Instruction { label: label_str, operation: c, box_number, lens },
                );
            }
            i = i + 1;
        }
        None
    }
}

/// Folds a character vector into its box number, as `hash_string` does.
pub fn hash_chars(cs: &Vec<char>) -> (r: usize)
    ensures
        r == spec_hash(cs@),
        r < 256,
{
    let mut acc: u64 = 0;
    let mut i: usize = 0;
    proof {
        assert(cs@.skip(0) =~= cs@);
        lemma_hash_range(cs@, 0);
    }
    while i < cs.len()
        invariant
            i <= cs@.len(),
            acc < 256,
            spec_hash(cs@) == spec_hash_acc(cs@.skip(i as int), acc as int),
        decreases cs@.len() - i,
    {
        proof {
            assert(cs@.skip(i as int).len() == cs@.len() - i);
            assert(cs@.skip(i as int)[0] == cs@[i as int]);
            assert(cs@.skip(i as int).skip(1) =~= cs@.skip(i + 1));
        }
        let c = cs[i];
        let cv = c as u32;
        acc = ((acc + cv as u64) * 17) % 256;
        i = i + 1;
    }
    proof {
        assert(cs@.skip(i as int) =~= Seq::<char>::empty());
    }
    acc as usize
}

/// One slot of a light box: a labeled lens.
pub struct Slot {
    pub label: Vec<char>,
    pub lens: usize,
}

/// A light box: an ordered row of slots.
pub struct LightBox {
    pub slots: Vec<Slot>,
}

/// The index of the first slot carrying the label.
pub open spec fn spec_find_slot(s: Seq<Slot>, label: Seq<char>, i: int) -> Option<int>
    decreases s.len() - i,
{
    if i >= s.len() {
        None
    } else if s[i].label@ == label {
        Some(i)
    } else {
        spec_find_slot(s, label, i + 1)
    }
}

fn labels_equal(a: &Vec<char>, b: &Vec<char>) -> (r: bool)
    ensures
        r == (a@ == b@),
{
    if a.len() != b.len() {
        return false;
    }
    let mut i: usize = 0;
    while i < a.len()
        invariant
            i <= a@.len(),
            a@.len() == b@.len(),
            forall|k: int| 0 <= k < i ==> a@[k] == b@[k],
        decreases a@.len() - i,
    {
        if a[i] != b[i] {
            return false;
        }
        i = i + 1;
    }
    proof {
        assert(a@ =~= b@);
    }
    true
}

impl LightBox {
    pub fn new() -> (r: LightBox)
        ensures
            r.slots@.len() == 0,
    {
        LightBox { slots: Vec::new() }
    }

    /// Replaces the lens in the first slot with this label, or appends a new
    /// slot at the back.
    #[verifier::loop_isolation(false)]
    pub fn add_lens(&mut self, label: Vec<char>, lens: usize)
        ensures
            match spec_find_slot(old(self).slots@, label@, 0) {
                Some(i) => {
                    &&& final(self).slots@.len() == old(self).slots@.len()
                    &&& (forall|k: int|
                        0 <= k < old(self).slots@.len() && k != i
                            ==> #[trigger] final(self).slots@[k] == old(self).slots@[k])
                    &&& final(self).slots@[i].label@ == label@
                    &&& final(self).slots@[i].lens == lens
                },
                None => {
                    &&& final(self).slots@.len() == old(self).slots@.len() + 1
                    &&& (forall|k: int|
                        0 <= k < old(self).slots@.len()
                            ==> #[trigger] final(self).slots@[k] == old(self).slots@[k])
                    &&& final(self).slots@.last().label@ == label@
                    &&& final(self).slots@.last().lens == lens
                },
            },
    {
        let ghost s0 = self.slots@;
        let mut i: usize = 0;
        while i < self.slots.len()
            invariant
                i <= self.slots@.len(),
                self.slots@ == s0,
                spec_find_slot(s0, label@, 0) == spec_find_slot(s0, label@, i as int),
            decreases self.slots@.len() - i,
        {
            if labels_equal(&self.slots[i].label, &label) {
                let slot = &mut self.slots[i];
                slot.lens = lens;
                proof {
                    assert(spec_find_slot(s0, label@, i as int) == Some(i as int));
                }
                return;
            }
            i = i + 1;
        }
        self.slots.push(Slot { label, lens });
    }

    /// Removes the first slot with this label, closing the gap; a missing
    /// label changes nothing.
    #[verifier::loop_isolation(false)]
    pub fn remove_lens(&mut self, label: Vec<char>)
        ensures
            match spec_find_slot(old(self).slots@, label@, 0) {
                Some(i) => final(self).slots@ == old(self).slots@.remove(i),
                None => final(self).slots@ == old(self).slots@,
            },
    {
        let ghost s0 = self.slots@;
        let mut i: usize = 0;
        while i < self.slots.len()
            invariant
                i <= self.slots@.len(),
                self.slots@ == s0,
                spec_find_slot(s0, label@, 0) == spec_find_slot(s0, label@, i as int),
            decreases self.slots@.len() - i,
        {
            if labels_equal(&self.slots[i].label, &label) {
                self.slots.remove(i);
                proof {
                    assert(spec_find_slot(s0, label@, i as int) == Some(i as int));
                }
                return;
            }
            i = i + 1;
        }
    }

    /// The checked focusing-power fold: each slot contributes
    /// `(box_number + 1) * (slot index + 1) * focal length`; `None` where a
    /// term or the sum leaves the `usize` range.
    pub open spec fn spec_power_fold(s: Seq<Slot>, bn: int, i: int, acc: usize) -> Option<usize>
        decreases s.len() - i,
    {
        if i >= s.len() {
            Some(acc)
        } else {
            let term = (bn + 1) * (i + 1) * s[i].lens;
            if acc + term > usize::MAX {
                None
            } else {
                Self::spec_power_fold(s, bn, i + 1, (acc + term) as usize)
            }
        }
    }

    /// Sums the focusing power of the box's slots; zero where the sum would
    /// not fit.
    #[verifier::loop_isolation(false)]
    pub fn get_focusing_power(&self, box_number: usize) -> (r: usize)
        requires
            box_number < usize::MAX,
        ensures
            r == match Self::spec_power_fold(self.slots@, box_number as int, 0, 0) {
                Some(v) => v,
                None => 0,
            },
    {
        let mut acc: usize = 0;
        let mut i: usize = 0;
        while i < self.slots.len()
            invariant
                i <= self.slots@.len(),
                Self::spec_power_fold(self.slots@, box_number as int, 0, 0)
                    == Self::spec_power_fold(self.slots@, box_number as int, i as int, acc),
            decreases self.slots@.len() - i,
        {
            let lens = self.slots[i].lens;
            let a = box_number as u128 + 1;
            let b = i as u128 + 1;
            proof {
                assert(a * b <= u64::MAX as u128 * u64::MAX as u128) by (nonlinear_arith)
                    requires
                        0 <= a <= u64::MAX as u128,
                        0 <= b <= u64::MAX as u128,
                ;
            }
            let t0 = a * b;
            let wide: Option<u128> = t0.checked_mul(lens as u128);
            let term: u128 = match wide {
                Some(t) => t,
                None => {
                    proof {
                        assert((box_number + 1) * (i + 1) * lens as int > usize::MAX) by (
                        nonlinear_arith)
                            requires
                                (box_number + 1) * (i + 1) == a * b,
                                a * b * (lens as int) > u128::MAX,
                                lens as int >= 0,
                                usize::MAX as int <= u128::MAX,
                                a * b >= 0,
                    ;
                    }
                    return 0;
                },
            };
            proof {
                assert(term == (box_number + 1) * (i + 1) * lens as int) by (nonlinear_arith)
                    requires
                        (box_number + 1) * (i + 1) == a * b,
                        term == a * b * (lens as int),
                ;
            }
            if term > usize::MAX as u128 - acc as u128 {
                return 0;
            }
            acc = acc + term as usize;
            i = i + 1;
        }
        acc
    }
}

/// The checked sum of the hashes of the comma-separated pieces, each piece
/// trimmed; `None` where the sum leaves the range.
pub open spec fn spec_hash_sum(ps: Seq<Seq<char>>, i: int, acc: usize) -> Option<usize>
    decreases ps.len() - i,
{
    if i >= ps.len() {
        Some(acc)
    } else {
        let h = spec_hash(spec_trim(ps[i]));
        if acc + h > usize::MAX {
            None
        } else {
            spec_hash_sum(ps, i + 1, (acc + h) as usize)
        }
    }
}

/// Sums the hash of every comma-separated piece of the initialization
/// sequence; zero where the sum leaves the range.
#[verifier::loop_isolation(false)]
pub fn sum_piece_hashes(input: &str) -> (r: usize)
    ensures
        r == match spec_hash_sum(spec_split_char(input@, ','), 0, 0) {
            Some(v) => v,
            None => 0,
        },
{
    let cs = chars_of(input);
    let pieces = split_char(&cs, ',');
    let ghost pss = spec_split_char(input@, ',');
    let mut sum: usize = 0;
    let mut i: usize = 0;
    while i < pieces.len()
        invariant
            i <= pieces@.len(),
            spec_hash_sum(pss, 0, 0) == spec_hash_sum(pss, i as int, sum),
        decreases pieces@.len() - i,
    {
        let t = trim(&pieces[i]);
        let h = hash_chars(&t);
        proof {
            lemma_hash_range(t@, 0);
        }
        if h > usize::MAX - sum {
            return 0;
        }
        sum = sum + h;
        i = i + 1;
    }
    sum
}

/// Runs the whole initialization sequence: each comma-separated instruction
/// updates its box, and the boxes' focusing powers are summed; unreadable
/// instructions are passed over, and a sum out of range gives zero.
pub fn run_initialization(input: &str) -> (r: usize)
{
    let cs = chars_of(input);
    let pieces = split_char(&cs, ',');
    let mut boxes: Vec<LightBox> = Vec::new();
    let mut b: usize = 0;
    while b < 256
        invariant
            b <= 256,
            boxes@.len() == b,
        decreases 256 - b,
    {
        boxes.push(LightBox::new());
        b = b + 1;
    }
    let mut i: usize = 0;
    while i < pieces.len()
        invariant
            i <= pieces@.len(),
            boxes@.len() == 256,
        decreases pieces@.len() - i,
    {
        let t = trim(&pieces[i]);
        let s = crate::text::string_of(&t);
        match Instruction::new(s.as_str()) {
            Some(ins) => {
                let bn = ins.box_number;
                if bn < 256 {
                    let the_box = &mut boxes[bn];
                    match ins.lens {
                        Some(lens) => {
                            the_box.add_lens(ins.label, lens);
                        },
                        None => {
                            the_box.remove_lens(ins.label);
                        },
                    }
                }
            },
            None => {},
        }
        i = i + 1;
    }
    let mut sum: usize = 0;
    let mut b: usize = 0;
    while b < 256
        invariant
            b <= 256,
            boxes@.len() == 256,
        decreases 256 - b,
    {
        if b < usize::MAX {
            let p = boxes[b].get_focusing_power(b);
            if p > usize::MAX - sum {
                return 0;
            }
            sum = sum + p;
        }
        b = b + 1;
    }
    sum
}

} // verus!
