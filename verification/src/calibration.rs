//! Calibration values: the first and last digit of each token form a
//! two-digit number, and spelled-out digit words can first be turned into
//! digits.

use vstd::prelude::*;
use crate::text::{chars_of, split_ws, string_of, spec_split_ws, spec_is_digit, spec_digit_val,
    is_digit, digit_val};

verus! {

/// The first decimal digit of a piece, as a value; zero when there is none.
pub open spec fn spec_first_digit(s: Seq<char>) -> int
    decreases s.len(),
{
    if s.len() == 0 {
        0
    } else if spec_is_digit(s[0]) {
        spec_digit_val(s[0])
    } else {
        spec_first_digit(s.skip(1))
    }
}

/// The last decimal digit of a piece, as a value; zero when there is none.
pub open spec fn spec_last_digit(s: Seq<char>) -> int
    decreases s.len(),
{
    if s.len() == 0 {
        0
    } else if spec_is_digit(s.last()) {
        spec_digit_val(s.last())
    } else {
        spec_last_digit(s.drop_last())
    }
}

/// The value of the first digit found scanning forward.
pub fn first_digit(s: &str) -> (r: u32)
    ensures
        r == spec_first_digit(s@),
        r <= 9,
{
    let cs = chars_of(s);
    first_digit_chars(&cs)
}

fn first_digit_chars(cs: &Vec<char>) -> (r: u32)
    ensures
        r == spec_first_digit(cs@),
        r <= 9,
{
    let mut i: usize = 0;
    proof {
        assert(cs@.skip(0) =~= cs@);
    }
    while i < cs.len()
        invariant
            i <= cs@.len(),
            spec_first_digit(cs@) == spec_first_digit(cs@.skip(i as int)),
        decreases cs@.len() - i,
    {
        proof {
            assert(cs@.skip(i as int).len() == cs@.len() - i);
            assert(cs@.skip(i as int)[0] == cs@[i as int]);
            assert(cs@.skip(i as int).skip(1) =~= cs@.skip(i + 1));
        }
        if is_digit(cs[i]) {
            return digit_val(cs[i]);
        }
        i = i + 1;
    }
    proof {
        assert(cs@.skip(i as int) =~= Seq::<char>::empty());
    }
    0
}

/// The value of the first digit found scanning backward.
pub fn last_digit(s: &str) -> (r: u32)
    ensures
        r == spec_last_digit(s@),
        r <= 9,
{
    let cs = chars_of(s);
    last_digit_chars(&cs)
}

fn last_digit_chars(cs: &Vec<char>) -> (r: u32)
    ensures
        r == spec_last_digit(cs@),
        r <= 9,
{
    let mut i: usize = cs.len();
    proof {
        assert(cs@.take(cs@.len() as int) =~= cs@);
    }
    while i > 0
        invariant
            i <= cs@.len(),
            spec_last_digit(cs@) == spec_last_digit(cs@.take(i as int)),
        decreases i,
    {
        proof {
            assert(cs@.take(i as int).len() == i);
            assert(cs@.take(i as int).last() == cs@[i - 1]);
            assert(cs@.take(i as int).drop_last() =~= cs@.take(i - 1));
        }
        if is_digit(cs[i - 1]) {
            return digit_val(cs[i - 1]);
        }
        i = i - 1;
    }
    proof {
        assert(cs@.take(0) =~= Seq::<char>::empty());
    }
    0
}

/// The checked sum of each token's two-digit calibration value.
pub open spec fn spec_cal_fold(ts: Seq<Seq<char>>, i: int, acc: u32) -> Option<u32>
    decreases ts.len() - i,
{
    if i >= ts.len() {
        Some(acc)
    } else {
        let v = 10 * spec_first_digit(ts[i]) + spec_last_digit(ts[i]);
        if acc + v > u32::MAX {
            None
        } else {
            spec_cal_fold(ts, i + 1, (acc + v) as u32)
        }
    }
}

/// Sums the calibration values of all whitespace-separated tokens; zero where
/// the sum leaves the range.
#[verifier::loop_isolation(false)]
pub fn sum_calibration(input: &str) -> (r: u32)
    ensures
        r == match spec_cal_fold(spec_split_ws(input@), 0, 0) {
            Some(v) => v,
            None => 0u32,
        },
{
    let cs = chars_of(input);
    let tokens = split_ws(&cs);
    let ghost tss = spec_split_ws(input@);
    let mut sum: u32 = 0;
    let mut i: usize = 0;
    while i < tokens.len()
        invariant
            i <= tokens@.len(),
            spec_cal_fold(tss, 0, 0) == spec_cal_fold(tss, i as int, sum),
        decreases tokens@.len() - i,
    {
        let f = first_digit_chars(&tokens[i]);
        let l = last_digit_chars(&tokens[i]);
        let v = 10 * f + l;
        if sum > u32::MAX - v {
            return 0;
        }
        sum = sum + v;
        i = i + 1;
    }
    sum
}

/// The digit a spelled-out digit word starting at `i` stands for.
pub open spec fn spec_word_digit(s: Seq<char>, i: int) -> Option<char> {
    if spec_has_prefix(s, i, seq!['o', 'n', 'e']) {
        Some('1')
    } else if spec_has_prefix(s, i, seq!['t', 'w', 'o']) {
        Some('2')
    } else if spec_has_prefix(s, i, seq!['t', 'h', 'r', 'e', 'e']) {
        Some('3')
    } else if spec_has_prefix(s, i, seq!['f', 'o', 'u', 'r']) {
        Some('4')
    } else if spec_has_prefix(s, i, seq!['f', 'i', 'v', 'e']) {
        Some('5')
    } else if spec_has_prefix(s, i, seq!['s', 'i', 'x']) {
        Some('6')
    } else if spec_has_prefix(s, i, seq!['s', 'e', 'v', 'e', 'n']) {
        Some('7')
    } else if spec_has_prefix(s, i, seq!['e', 'i', 'g', 'h', 't']) {
        Some('8')
    } else if spec_has_prefix(s, i, seq!['n', 'i', 'n', 'e']) {
        Some('9')
    } else {
        None
    }
}

/// The word appears in `s` starting at `i`.
pub open spec fn spec_has_prefix(s: Seq<char>, i: int, w: Seq<char>) -> bool {
    0 <= i && i + w.len() <= s.len() && s.subrange(i, i + w.len()) == w
}

/// Each position yields its digit word's digit, or its own character.
pub open spec fn spec_convert_acc(s: Seq<char>, i: int) -> Seq<char>
    decreases s.len() - i,
{
    if i >= s.len() {
        Seq::empty()
    } else {
        match spec_word_digit(s, i) {
            Some(d) => seq![d] + spec_convert_acc(s, i + 1),
            None => seq![s[i]] + spec_convert_acc(s, i + 1),
        }
    }
}

fn has_prefix(cs: &Vec<char>, i: usize, w: &Vec<char>) -> (r: bool)
    requires
        i <= cs@.len(),
    ensures
        r == spec_has_prefix(cs@, i as int, w@),
{
    let n = cs.len();
    if w.len() > n - i {
        return false;
    }
    let mut k: usize = 0;
    while k < w.len()
        invariant
            k <= w@.len(),
            n == cs@.len(),
            i + w@.len() <= n,
            forall|j: int| 0 <= j < k ==> cs@[i + j] == w@[j],
        decreases w@.len() - k,
    {
        if cs[i + k] != w[k] {
            proof {
                assert(cs@.subrange(i as int, i + w@.len())[k as int] == cs@[i + k]);
            }
            return false;
        }
        k = k + 1;
    }
    proof {
        assert(cs@.subrange(i as int, i + w@.len()) =~= w@);
    }
    true
}

/// Replaces every spelled-out digit word by its digit character, keeping all
/// other characters; overlapping words each contribute at their own start.
#[verifier::loop_isolation(false)]
pub fn convert_string_to_numbers(s: &str) -> (r: String)
    ensures
        r@ == spec_convert_acc(s@, 0),
{
    let cs = chars_of(s);
    let w1 = vec!['o', 'n', 'e'];
    let w2 = vec!['t', 'w', 'o'];
    let w3 = vec!['t', 'h', 'r', 'e', 'e'];
    let w4 = vec!['f', 'o', 'u', 'r'];
    let w5 = vec!['f', 'i', 'v', 'e'];
    let w6 = vec!['s', 'i', 'x'];
    let w7 = vec!['s', 'e', 'v', 'e', 'n'];
    let w8 = vec!['e', 'i', 'g', 'h', 't'];
    let w9 = vec!['n', 'i', 'n', 'e'];
    let mut out: Vec<char> = Vec::new();
    let mut i: usize = 0;
    while i < cs.len()
        invariant
            i <= cs@.len(),
            w1@ == seq!['o', 'n', 'e'],
            w2@ == seq!['t', 'w', 'o'],
            w3@ == seq!['t', 'h', 'r', 'e', 'e'],
            w4@ == seq!['f', 'o', 'u', 'r'],
            w5@ == seq!['f', 'i', 'v', 'e'],
            w6@ == seq!['s', 'i', 'x'],
            w7@ == seq!['s', 'e', 'v', 'e', 'n'],
            w8@ == seq!['e', 'i', 'g', 'h', 't'],
            w9@ == seq!['n', 'i', 'n', 'e'],
            spec_convert_acc(cs@, 0) == out@ + spec_convert_acc(cs@, i as int),
        decreases cs@.len() - i,
    {
        let ghost op = out@;
        if has_prefix(&cs, i, &w1) {
            out.push('1');
        } else if has_prefix(&cs, i, &w2) {
            out.push('2');
        } else if has_prefix(&cs, i, &w3) {
            out.push('3');
        } else if has_prefix(&cs, i, &w4) {
            out.push('4');
        } else if has_prefix(&cs, i, &w5) {
            out.push('5');
        } else if has_prefix(&cs, i, &w6) {
            out.push('6');
        } else if has_prefix(&cs, i, &w7) {
            out.push('7');
        } else if has_prefix(&cs, i, &w8) {
            out.push('8');
        } else if has_prefix(&cs, i, &w9) {
            out.push('9');
        } else {
            out.push(cs[i]);
        }
        proof {
            match spec_word_digit(cs@, i as int) {
                Some(d) => {
                    assert(op + (seq![d] + spec_convert_acc(cs@, i + 1)) =~= out@
                        + spec_convert_acc(cs@, i + 1));
                },
                None => {
                    assert(op + (seq![cs@[i as int]] + spec_convert_acc(cs@, i + 1)) =~= out@
                        + spec_convert_acc(cs@, i + 1));
                },
            }
        }
        i = i + 1;
    }
    proof {
        assert(out@ + Seq::<char>::empty() =~= out@);
    }
    string_of(&out)
}

} // verus!
