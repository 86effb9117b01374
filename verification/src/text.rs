//! Character-level text utilities shared by the puzzle modules.
//!
//! Input text is turned into a `Vec<char>` once, and every split, trim and
//! number parse below is verified code over character sequences, each with an
//! exact specification.

use vstd::prelude::*;

verus! {

/// Relies on str::chars: yields exactly the characters of the string, in order.
#[verifier::external_body]
pub(crate) fn chars_of(s: &str) -> (r: Vec<char>)
    ensures
        r@ == s@,
{
    s.chars().collect()
}

pub open spec fn spec_is_digit(c: char) -> bool {
    48 <= c as u32 && c as u32 <= 57
}

pub open spec fn spec_digit_val(c: char) -> int {
    c as u32 - 48
}

pub fn is_digit(c: char) -> (r: bool)
    ensures
        r == spec_is_digit(c),
{
    let u = c as u32;
    48 <= u && u <= 57
}

pub fn digit_val(c: char) -> (r: u32)
    requires
        spec_is_digit(c),
    ensures
        r == spec_digit_val(c),
        r <= 9,
{
    c as u32 - 48
}

pub open spec fn spec_is_ws(c: char) -> bool {
    c == ' ' || c == '\t' || c == '\n' || c == '\r' || c as u32 == 11 || c as u32 == 12
}

pub fn is_ws(c: char) -> (r: bool)
    ensures
        r == spec_is_ws(c),
{
    c == ' ' || c == '\t' || c == '\n' || c == '\r' || c as u32 == 11 || c as u32 == 12
}

// ---------------------------------------------------------------------------
// Splitting into lines
// ---------------------------------------------------------------------------

/// A line with a trailing carriage return loses it.
pub open spec fn spec_strip_cr(l: Seq<char>) -> Seq<char> {
    if l.len() > 0 && l.last() == '\r' {
        l.drop_last()
    } else {
        l
    }
}

/// Accumulator form of line splitting: `cur` is the line being read.
pub open spec fn spec_lines_acc(s: Seq<char>, cur: Seq<char>) -> Seq<Seq<char>>
    decreases s.len(),
{
    if s.len() == 0 {
        if cur.len() == 0 {
            Seq::empty()
        } else {
            seq![spec_strip_cr(cur)]
        }
    } else if s[0] == '\n' {
        seq![spec_strip_cr(cur)] + spec_lines_acc(s.skip(1), Seq::empty())
    } else {
        spec_lines_acc(s.skip(1), cur.push(s[0]))
    }
}

/// The lines of `s`: pieces between newlines, each without a trailing `'\r'`,
/// with no empty piece after a final newline.
pub open spec fn spec_lines(s: Seq<char>) -> Seq<Seq<char>> {
    spec_lines_acc(s, Seq::empty())
}

pub fn split_lines(s: &Vec<char>) -> (r: Vec<Vec<char>>)
    ensures
        r@.len() == spec_lines(s@).len(),
        forall|k: int| 0 <= k < r@.len() ==> r@[k]@ == spec_lines(s@)[k],
{
    let mut r: Vec<Vec<char>> = Vec::new();
    let mut cur: Vec<char> = Vec::new();
    let mut i: usize = 0;
    let ghost mut done: Seq<Seq<char>> = Seq::empty();
    proof {
        assert(s@.skip(0) =~= s@);
        assert(done + spec_lines_acc(s@, cur@) =~= spec_lines_acc(s@, cur@));
    }
    while i < s.len()
        invariant
            i <= s@.len(),
            done.len() == r@.len(),
            forall|k: int| 0 <= k < done.len() ==> r@[k]@ == done[k],
            spec_lines(s@) == done + spec_lines_acc(s@.skip(i as int), cur@),
        decreases s@.len() - i,
    {
        proof {
            assert(s@.skip(i as int).len() == s@.len() - i);
            assert(s@.skip(i as int)[0] == s@[i as int]);
            assert(s@.skip(i as int).skip(1) =~= s@.skip(i + 1));
        }
        let c = s[i];
        if c == '\n' {
            let ghost cv0 = cur@;
            if cur.len() > 0 && cur[cur.len() - 1] == '\r' {
                cur.pop();
            }
            proof {
                assert(cur@ =~= spec_strip_cr(cv0));
            }
            let ghost cv = cur@;
            let ghost dp = done;
            r.push(cur);
            proof {
                done = done.push(cv);
                assert(spec_lines_acc(s@.skip(i as int), cv0) == seq![cv] + spec_lines_acc(
                    s@.skip(i + 1),
                    Seq::empty(),
                ));
                assert(dp + (seq![cv] + spec_lines_acc(s@.skip(i + 1), Seq::empty()))
                    =~= done + spec_lines_acc(s@.skip(i + 1), Seq::empty()));
            }
            cur = Vec::new();
        } else {
            cur.push(c);
        }
        i = i + 1;
    }
    proof {
        assert(s@.skip(i as int) =~= Seq::<char>::empty());
    }
    if cur.len() > 0 {
        let ghost cv0 = cur@;
        if cur[cur.len() - 1] == '\r' {
            cur.pop();
        }
        proof {
            assert(cur@ =~= spec_strip_cr(cv0));
        }
        let ghost cv = cur@;
        let ghost dp = done;
        r.push(cur);
        proof {
            done = done.push(cv);
            assert(dp + seq![cv] =~= done);
            assert(spec_lines(s@) =~= done);
        }
    } else {
        proof {
            assert(done + Seq::<Seq<char>>::empty() =~= done);
        }
    }
    r
}

// ---------------------------------------------------------------------------
// Trimming
// ---------------------------------------------------------------------------

pub open spec fn spec_trim_start(s: Seq<char>) -> Seq<char>
    decreases s.len(),
{
    if s.len() > 0 && spec_is_ws(s[0]) {
        spec_trim_start(s.skip(1))
    } else {
        s
    }
}

pub open spec fn spec_trim_end(s: Seq<char>) -> Seq<char>
    decreases s.len(),
{
    if s.len() > 0 && spec_is_ws(s.last()) {
        spec_trim_end(s.drop_last())
    } else {
        s
    }
}

/// The sequence without leading and trailing whitespace.
pub open spec fn spec_trim(s: Seq<char>) -> Seq<char> {
    spec_trim_end(spec_trim_start(s))
}

proof fn lemma_trim_start_skip(s: Seq<char>, a: int)
    requires
        0 <= a <= s.len(),
        forall|k: int| 0 <= k < a ==> spec_is_ws(s[k]),
        a < s.len() ==> !spec_is_ws(s[a]),
    ensures
        spec_trim_start(s) == s.skip(a),
    decreases a,
{
    if a == 0 {
        assert(s.skip(0) =~= s);
    } else {
        assert(spec_is_ws(s[0]));
        let t = s.skip(1);
        assert(forall|k: int| 0 <= k < a - 1 ==> t[k] == s[k + 1] && spec_is_ws(t[k]));
        lemma_trim_start_skip(t, a - 1);
        assert(t.skip(a - 1) =~= s.skip(a));
    }
}

proof fn lemma_trim_end_take(s: Seq<char>, b: int)
    requires
        0 <= b <= s.len(),
        forall|k: int| b <= k < s.len() ==> spec_is_ws(s[k]),
        b > 0 ==> !spec_is_ws(s[b - 1]),
    ensures
        spec_trim_end(s) == s.take(b),
    decreases s.len(),
{
    if b == s.len() {
        if s.len() > 0 && spec_is_ws(s.last()) {
            assert(false);
        }
        assert(s.take(b) =~= s);
    } else {
        assert(spec_is_ws(s.last()));
        let t = s.drop_last();
        lemma_trim_end_take(t, b);
        assert(t.take(b) =~= s.take(b));
    }
}

pub fn trim(s: &Vec<char>) -> (r: Vec<char>)
    ensures
        r@ == spec_trim(s@),
{
    let mut a: usize = 0;
    while a < s.len() && is_ws(s[a])
        invariant
            a <= s@.len(),
            forall|k: int| 0 <= k < a ==> spec_is_ws(s@[k]),
        decreases s@.len() - a,
    {
        a = a + 1;
    }
    let mut b: usize = s.len();
    while b > a && is_ws(s[b - 1])
        invariant
            a <= b <= s@.len(),
            forall|k: int| b <= k < s@.len() ==> spec_is_ws(s@[k]),
        decreases b,
    {
        b = b - 1;
    }
    let mut r: Vec<char> = Vec::new();
    let mut i: usize = a;
    while i < b
        invariant
            a <= i <= b <= s@.len(),
            r@ == s@.subrange(a as int, i as int),
        decreases b - i,
    {
        r.push(s[i]);
        proof {
            assert(r@ =~= s@.subrange(a as int, i + 1));
        }
        i = i + 1;
    }
    proof {
        lemma_trim_start_skip(s@, a as int);
        if b == a {
            // everything from a on is whitespace, or the string is empty there
            lemma_trim_end_take(s@.skip(a as int), 0);
        } else {
            assert(!spec_is_ws(s@[b - 1]));
            assert(forall|k: int| b - a <= k < s@.skip(a as int).len() ==> spec_is_ws(
                #[trigger] s@.skip(a as int)[k],
            )) by {
                assert(forall|k: int| b - a <= k < s@.skip(a as int).len() ==> s@.skip(a as int)[k]
                    == s@[k + a] && spec_is_ws(s@[k + a]));
            }
            lemma_trim_end_take(s@.skip(a as int), b - a);
        }
        assert(s@.skip(a as int).take(b - a) =~= s@.subrange(a as int, b as int));
    }
    r
}

// ---------------------------------------------------------------------------
// Splitting on whitespace and on separators
// ---------------------------------------------------------------------------

/// Accumulator form of whitespace splitting: maximal runs of non-whitespace.
pub open spec fn spec_split_ws_acc(s: Seq<char>, cur: Seq<char>) -> Seq<Seq<char>>
    decreases s.len(),
{
    if s.len() == 0 {
        if cur.len() == 0 {
            Seq::empty()
        } else {
            seq![cur]
        }
    } else if spec_is_ws(s[0]) {
        if cur.len() == 0 {
            spec_split_ws_acc(s.skip(1), Seq::empty())
        } else {
            seq![cur] + spec_split_ws_acc(s.skip(1), Seq::empty())
        }
    } else {
        spec_split_ws_acc(s.skip(1), cur.push(s[0]))
    }
}

/// The maximal whitespace-free runs of `s`, in order.
pub open spec fn spec_split_ws(s: Seq<char>) -> Seq<Seq<char>> {
    spec_split_ws_acc(s, Seq::empty())
}

pub fn split_ws(s: &Vec<char>) -> (r: Vec<Vec<char>>)
    ensures
        r@.len() == spec_split_ws(s@).len(),
        forall|k: int| 0 <= k < r@.len() ==> r@[k]@ == spec_split_ws(s@)[k],
{
    let mut r: Vec<Vec<char>> = Vec::new();
    let mut cur: Vec<char> = Vec::new();
    let mut i: usize = 0;
    let ghost mut done: Seq<Seq<char>> = Seq::empty();
    proof {
        assert(s@.skip(0) =~= s@);
        assert(done + spec_split_ws_acc(s@, cur@) =~= spec_split_ws_acc(s@, cur@));
    }
    while i < s.len()
        invariant
            i <= s@.len(),
            done.len() == r@.len(),
            forall|k: int| 0 <= k < done.len() ==> r@[k]@ == done[k],
            spec_split_ws(s@) == done + spec_split_ws_acc(s@.skip(i as int), cur@),
        decreases s@.len() - i,
    {
        proof {
            assert(s@.skip(i as int).len() == s@.len() - i);
            assert(s@.skip(i as int)[0] == s@[i as int]);
            assert(s@.skip(i as int).skip(1) =~= s@.skip(i + 1));
            if cur@.len() == 0 {
                assert(cur@ =~= Seq::<char>::empty());
            }
        }
        let c = s[i];
        if is_ws(c) {
            if cur.len() > 0 {
                let ghost cv = cur@;
                let ghost dp = done;
                r.push(cur);
                proof {
                    done = done.push(cv);
                    assert(dp + (seq![cv] + spec_split_ws_acc(s@.skip(i + 1), Seq::empty()))
                        =~= done + spec_split_ws_acc(s@.skip(i + 1), Seq::empty()));
                }
                cur = Vec::new();
            }
        } else {
            cur.push(c);
        }
        i = i + 1;
    }
    proof {
        assert(s@.skip(i as int) =~= Seq::<char>::empty());
    }
    if cur.len() > 0 {
        let ghost cv = cur@;
        let ghost dp = done;
        r.push(cur);
        proof {
            done = done.push(cv);
            assert(dp + seq![cv] =~= done);
            assert(spec_split_ws(s@) =~= done);
        }
    } else {
        proof {
            assert(done + Seq::<Seq<char>>::empty() =~= done);
        }
    }
    r
}

/// Accumulator form of splitting on a separator character, keeping empties.
pub open spec fn spec_split_char_acc(s: Seq<char>, sep: char, cur: Seq<char>) -> Seq<Seq<char>>
    decreases s.len(),
{
    if s.len() == 0 {
        seq![cur]
    } else if s[0] == sep {
        seq![cur] + spec_split_char_acc(s.skip(1), sep, Seq::empty())
    } else {
        spec_split_char_acc(s.skip(1), sep, cur.push(s[0]))
    }
}

/// The pieces of `s` between occurrences of `sep`; always at least one piece,
/// and adjacent separators give empty pieces.
pub open spec fn spec_split_char(s: Seq<char>, sep: char) -> Seq<Seq<char>> {
    spec_split_char_acc(s, sep, Seq::empty())
}

pub fn split_char(s: &Vec<char>, sep: char) -> (r: Vec<Vec<char>>)
    ensures
        r@.len() == spec_split_char(s@, sep).len(),
        forall|k: int| 0 <= k < r@.len() ==> r@[k]@ == spec_split_char(s@, sep)[k],
        r@.len() >= 1,
{
    let mut r: Vec<Vec<char>> = Vec::new();
    let mut cur: Vec<char> = Vec::new();
    let mut i: usize = 0;
    let ghost mut done: Seq<Seq<char>> = Seq::empty();
    proof {
        assert(s@.skip(0) =~= s@);
        assert(done + spec_split_char_acc(s@, sep, cur@) =~= spec_split_char_acc(s@, sep, cur@));
    }
    while i < s.len()
        invariant
            i <= s@.len(),
            done.len() == r@.len(),
            forall|k: int| 0 <= k < done.len() ==> r@[k]@ == done[k],
            spec_split_char(s@, sep) == done + spec_split_char_acc(s@.skip(i as int), sep, cur@),
        decreases s@.len() - i,
    {
        proof {
            assert(s@.skip(i as int).len() == s@.len() - i);
            assert(s@.skip(i as int)[0] == s@[i as int]);
            assert(s@.skip(i as int).skip(1) =~= s@.skip(i + 1));
        }
        let c = s[i];
        if c == sep {
            let ghost cv = cur@;
            let ghost dp = done;
            r.push(cur);
            proof {
                done = done.push(cv);
                assert(dp + (seq![cv] + spec_split_char_acc(s@.skip(i + 1), sep, Seq::empty()))
                    =~= done + spec_split_char_acc(s@.skip(i + 1), sep, Seq::empty()));
            }
            cur = Vec::new();
        } else {
            cur.push(c);
        }
        i = i + 1;
    }
    proof {
        assert(s@.skip(i as int) =~= Seq::<char>::empty());
    }
    let ghost cv = cur@;
    let ghost dp = done;
    r.push(cur);
    proof {
        done = done.push(cv);
        assert(dp + seq![cv] =~= done);
        assert(spec_split_char(s@, sep) =~= done);
    }
    r
}

// ---------------------------------------------------------------------------
// The digits of a sequence
// ---------------------------------------------------------------------------

/// The subsequence of decimal digits of `s`, in order.
pub open spec fn spec_digits_of(s: Seq<char>) -> Seq<char>
    decreases s.len(),
{
    if s.len() == 0 {
        Seq::empty()
    } else if spec_is_digit(s[0]) {
        seq![s[0]] + spec_digits_of(s.skip(1))
    } else {
        spec_digits_of(s.skip(1))
    }
}

pub fn digits_of(s: &Vec<char>) -> (r: Vec<char>)
    ensures
        r@ == spec_digits_of(s@),
{
    let mut r: Vec<char> = Vec::new();
    let mut i: usize = 0;
    proof {
        assert(s@.skip(0) =~= s@);
        assert(r@ + spec_digits_of(s@) =~= spec_digits_of(s@));
    }
    while i < s.len()
        invariant
            i <= s@.len(),
            spec_digits_of(s@) == r@ + spec_digits_of(s@.skip(i as int)),
        decreases s@.len() - i,
    {
        proof {
            assert(s@.skip(i as int).len() == s@.len() - i);
            assert(s@.skip(i as int)[0] == s@[i as int]);
            assert(s@.skip(i as int).skip(1) =~= s@.skip(i + 1));
        }
        let c = s[i];
        if is_digit(c) {
            let ghost rp = r@;
            r.push(c);
            proof {
                assert(rp + (seq![c] + spec_digits_of(s@.skip(i + 1))) =~= r@ + spec_digits_of(
                    s@.skip(i + 1),
                ));
            }
        }
        i = i + 1;
    }
    proof {
        assert(s@.skip(i as int) =~= Seq::<char>::empty());
        assert(r@ + Seq::<char>::empty() =~= r@);
    }
    r
}

// ---------------------------------------------------------------------------
// Number parsing
// ---------------------------------------------------------------------------

/// Accumulator form of unsigned decimal parsing; `None` on a non-digit or when
/// the value leaves the `u64` range.
pub open spec fn spec_parse_u64_acc(s: Seq<char>, acc: u64) -> Option<u64>
    decreases s.len(),
{
    if s.len() == 0 {
        Some(acc)
    } else if !spec_is_digit(s[0]) {
        None
    } else {
        let v = acc * 10 + spec_digit_val(s[0]);
        if v > u64::MAX {
            None
        } else {
            spec_parse_u64_acc(s.skip(1), v as u64)
        }
    }
}

/// The `u64` written in decimal by `s`: all digits, at least one, value in
/// range; `None` otherwise.
pub open spec fn spec_parse_u64(s: Seq<char>) -> Option<u64> {
    if s.len() == 0 {
        None
    } else {
        spec_parse_u64_acc(s, 0)
    }
}

pub fn parse_u64(s: &Vec<char>) -> (r: Option<u64>)
    ensures
        r == spec_parse_u64(s@),
{
    if s.len() == 0 {
        return None;
    }
    let mut acc: u64 = 0;
    let mut i: usize = 0;
    proof {
        assert(s@.skip(0) =~= s@);
    }
    while i < s.len()
        invariant
            i <= s@.len(),
            spec_parse_u64(s@) == spec_parse_u64_acc(s@.skip(i as int), acc),
        decreases s@.len() - i,
    {
        proof {
            assert(s@.skip(i as int).len() == s@.len() - i);
            assert(s@.skip(i as int)[0] == s@[i as int]);
            assert(s@.skip(i as int).skip(1) =~= s@.skip(i + 1));
        }
        let c = s[i];
        if !is_digit(c) {
            return None;
        }
        let d = digit_val(c);
        let wide: u128 = acc as u128 * 10 + d as u128;
        if wide > u64::MAX as u128 {
            return None;
        }
        acc = wide as u64;
        i = i + 1;
    }
    proof {
        assert(s@.skip(i as int) =~= Seq::<char>::empty());
    }
    Some(acc)
}

/// The `u32` written in decimal by `s`.
pub open spec fn spec_parse_u32(s: Seq<char>) -> Option<u32> {
    match spec_parse_u64(s) {
        Some(v) => if v <= u32::MAX {
            Some(v as u32)
        } else {
            None
        },
        None => None,
    }
}

pub fn parse_u32(s: &Vec<char>) -> (r: Option<u32>)
    ensures
        r == spec_parse_u32(s@),
{
    match parse_u64(s) {
        Some(v) => if v <= u32::MAX as u64 {
            Some(v as u32)
        } else {
            None
        },
        None => None,
    }
}

/// The `i64` written in decimal by `s`: an optional leading minus sign, then
/// digits; `None` outside the `i64` range.
pub open spec fn spec_parse_i64(s: Seq<char>) -> Option<i64> {
    if s.len() > 0 && s[0] == '-' {
        match spec_parse_u64(s.skip(1)) {
            Some(v) => if v <= i64::MAX as u64 + 1 {
                Some((-(v as int)) as i64)
            } else {
                None
            },
            None => None,
        }
    } else {
        match spec_parse_u64(s) {
            Some(v) => if v <= i64::MAX as u64 {
                Some(v as i64)
            } else {
                None
            },
            None => None,
        }
    }
}

pub fn parse_i64(s: &Vec<char>) -> (r: Option<i64>)
    ensures
        r == spec_parse_i64(s@),
{
    if s.len() > 0 && s[0] == '-' {
        let mut rest: Vec<char> = Vec::new();
        let mut i: usize = 1;
        while i < s.len()
            invariant
                1 <= i <= s@.len(),
                rest@ == s@.subrange(1, i as int),
            decreases s@.len() - i,
        {
            rest.push(s[i]);
            proof {
                assert(rest@ =~= s@.subrange(1, i + 1));
            }
            i = i + 1;
        }
        proof {
            assert(rest@ =~= s@.skip(1));
        }
        match parse_u64(&rest) {
            Some(v) => {
                if v <= i64::MAX as u64 + 1 {
                    if v == i64::MAX as u64 + 1 {
                        Some(i64::MIN)
                    } else {
                        Some(-(v as i64))
                    }
                } else {
                    None
                }
            },
            None => None,
        }
    } else {
        match parse_u64(s) {
            Some(v) => if v <= i64::MAX as u64 {
                Some(v as i64)
            } else {
                None
            },
            None => None,
        }
    }
}

// ---------------------------------------------------------------------------
// Length accounting for the split pieces
// ---------------------------------------------------------------------------

/// The total length of a sequence of pieces.
pub open spec fn sum_lens(ls: Seq<Seq<char>>) -> int
    decreases ls.len(),
{
    if ls.len() == 0 {
        0
    } else {
        ls[0].len() + sum_lens(ls.skip(1))
    }
}

pub proof fn lemma_trim_start_len(l: Seq<char>)
    ensures
        spec_trim_start(l).len() <= l.len(),
    decreases l.len(),
{
    if l.len() > 0 && spec_is_ws(l[0]) {
        lemma_trim_start_len(l.skip(1));
    }
}

pub proof fn lemma_trim_end_len(l: Seq<char>)
    ensures
        spec_trim_end(l).len() <= l.len(),
    decreases l.len(),
{
    if l.len() > 0 && spec_is_ws(l.last()) {
        lemma_trim_end_len(l.drop_last());
    }
}

/// Trimming never lengthens a piece.
pub proof fn lemma_trim_len(l: Seq<char>)
    ensures
        spec_trim(l).len() <= l.len(),
{
    lemma_trim_start_len(l);
    lemma_trim_end_len(spec_trim_start(l));
}

/// The lines of a text hold no more characters than the text itself.
pub proof fn lemma_lines_total_len(s: Seq<char>, cur: Seq<char>)
    ensures
        sum_lens(spec_lines_acc(s, cur)) <= s.len() + cur.len(),
    decreases s.len(),
{
    if s.len() == 0 {
        if cur.len() > 0 {
            let one = seq![spec_strip_cr(cur)];
            assert(sum_lens(Seq::<Seq<char>>::empty()) == 0);
            assert(one.skip(1) =~= Seq::<Seq<char>>::empty());
            assert(sum_lens(one) == spec_strip_cr(cur).len());
        }
    } else if s[0] == '\n' {
        lemma_lines_total_len(s.skip(1), Seq::empty());
        let rest = spec_lines_acc(s.skip(1), Seq::empty());
        let whole = seq![spec_strip_cr(cur)] + rest;
        assert(whole[0] == spec_strip_cr(cur));
        assert(whole.skip(1) =~= rest);
        assert(sum_lens(whole) == spec_strip_cr(cur).len() + sum_lens(rest));
        assert(sum_lens(rest) <= s.len() - 1);
        assert(spec_lines_acc(s, cur) == whole);
    } else {
        lemma_lines_total_len(s.skip(1), cur.push(s[0]));
        assert(spec_lines_acc(s, cur) == spec_lines_acc(s.skip(1), cur.push(s[0])));
        assert(sum_lens(spec_lines_acc(s.skip(1), cur.push(s[0]))) <= (s.len() - 1) + (cur.len()
            + 1));
    }
}

/// When every line trims to the same width, the total length is at least the
/// line count times that width.
pub proof fn lemma_sum_lens_lower(ls: Seq<Seq<char>>, w: int)
    requires
        forall|k: int| 0 <= k < ls.len() ==> (#[trigger] spec_trim(ls[k])).len() == w,
    ensures
        sum_lens(ls) >= ls.len() * w,
    decreases ls.len(),
{
    if ls.len() == 0 {
        assert(ls.len() * w == 0) by (nonlinear_arith)
            requires
                ls.len() == 0,
        ;
    } else {
        lemma_trim_len(ls[0]);
        let t = ls.skip(1);
        assert(forall|k: int| 0 <= k < t.len() ==> t[k] == ls[k + 1]);
        assert(forall|k: int|
            0 <= k < t.len() ==> (#[trigger] spec_trim(t[k])).len() == w) by {
            assert(forall|k: int|
                0 <= k < t.len() ==> t[k] == ls[k + 1] && (#[trigger] spec_trim(t[k])).len()
                    == spec_trim(ls[k + 1]).len());
        }
        lemma_sum_lens_lower(t, w);
        assert(ls.len() * w == (ls.len() - 1) * w + w) by (nonlinear_arith);
    }
}

/// Accumulator form of splitting on a blank line (two newlines in a row).
pub open spec fn spec_split_blank_acc(s: Seq<char>, cur: Seq<char>) -> Seq<Seq<char>>
    decreases s.len(),
{
    if s.len() == 0 {
        seq![cur]
    } else if s.len() >= 2 && s[0] == '\n' && s[1] == '\n' {
        seq![cur] + spec_split_blank_acc(s.skip(2), Seq::empty())
    } else {
        spec_split_blank_acc(s.skip(1), cur.push(s[0]))
    }
}

/// The pieces of `s` between blank lines; always at least one piece.
pub open spec fn spec_split_blank(s: Seq<char>) -> Seq<Seq<char>> {
    spec_split_blank_acc(s, Seq::empty())
}

pub fn split_blank(s: &Vec<char>) -> (r: Vec<Vec<char>>)
    ensures
        r@.len() == spec_split_blank(s@).len(),
        forall|k: int| 0 <= k < r@.len() ==> r@[k]@ == spec_split_blank(s@)[k],
        r@.len() >= 1,
{
    let mut r: Vec<Vec<char>> = Vec::new();
    let mut cur: Vec<char> = Vec::new();
    let mut i: usize = 0;
    let ghost mut done: Seq<Seq<char>> = Seq::empty();
    proof {
        assert(s@.skip(0) =~= s@);
        assert(done + spec_split_blank_acc(s@, cur@) =~= spec_split_blank_acc(s@, cur@));
    }
    while i < s.len()
        invariant
            i <= s@.len(),
            done.len() == r@.len(),
            forall|k: int| 0 <= k < done.len() ==> r@[k]@ == done[k],
            spec_split_blank(s@) == done + spec_split_blank_acc(s@.skip(i as int), cur@),
        decreases s@.len() - i,
    {
        proof {
            assert(s@.skip(i as int).len() == s@.len() - i);
            assert(s@.skip(i as int)[0] == s@[i as int]);
            if i + 1 < s@.len() {
                assert(s@.skip(i as int)[1] == s@[i as int + 1]);
            }
            assert(s@.skip(i as int).skip(1) =~= s@.skip(i + 1));
            if i + 2 <= s@.len() {
                assert(s@.skip(i as int).skip(2) =~= s@.skip(i + 2));
            }
        }
        let c = s[i];
        if c == '\n' && i + 1 < s.len() && s[i + 1] == '\n' {
            let ghost cv = cur@;
            let ghost dp = done;
            r.push(cur);
            proof {
                done = done.push(cv);
                assert(dp + (seq![cv] + spec_split_blank_acc(s@.skip(i + 2), Seq::empty()))
                    =~= done + spec_split_blank_acc(s@.skip(i + 2), Seq::empty()));
            }
            cur = Vec::new();
            i = i + 2;
        } else {
            cur.push(c);
            i = i + 1;
        }
    }
    proof {
        assert(s@.skip(i as int) =~= Seq::<char>::empty());
    }
    let ghost cv = cur@;
    let ghost dp = done;
    r.push(cur);
    proof {
        done = done.push(cv);
        assert(dp + seq![cv] =~= done);
        assert(spec_split_blank(s@) =~= done);
    }
    r
}

/// Relies on String's FromIterator: collects exactly the characters, in order.
#[verifier::external_body]
pub(crate) fn string_of(cs: &Vec<char>) -> (r: String)
    ensures
        r@ == cs@,
{
    cs.iter().collect()
}

} // verus!
