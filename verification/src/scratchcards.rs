//! Scratchcards: each card lists winning numbers and own numbers; matches
//! score points, and each card also wins copies of the following cards.

use vstd::prelude::*;
use crate::text::{chars_of, split_lines, split_char, split_ws, digits_of, parse_u32, trim,
    spec_lines, spec_split_char, spec_split_ws, spec_digits_of, spec_parse_u32, spec_trim};

verus! {

/// One scratchcard: its number, the winning numbers, and the player's own.
pub struct Card {
    pub number: u32,
    pub winning_numbers: Vec<u32>,
    pub my_numbers: Vec<u32>,
}

/// The numbers written by a token list, unreadable tokens passed over.
pub open spec fn spec_nums_of(ts: Seq<Seq<char>>, i: int) -> Seq<u32>
    decreases ts.len() - i,
{
    if i >= ts.len() {
        Seq::empty()
    } else {
        match spec_parse_u32(ts[i]) {
            Some(v) => seq![v] + spec_nums_of(ts, i + 1),
            None => spec_nums_of(ts, i + 1),
        }
    }
}

/// The card number written before the colon: its digits, read as a number.
pub open spec fn spec_card_number(cs: Seq<char>) -> u32 {
    match spec_parse_u32(spec_digits_of(spec_split_char(cs, ':')[0])) {
        Some(n) => n,
        None => 0u32,
    }
}

/// The winning numbers of a card line: the first list after the colon.
pub open spec fn spec_card_winning(cs: Seq<char>) -> Seq<u32> {
    let halves = spec_split_char(cs, ':');
    if halves.len() >= 2 {
        spec_nums_of(spec_split_ws(spec_split_char(halves[1], '|')[0]), 0)
    } else {
        Seq::empty()
    }
}

/// The own numbers of a card line: the list after the bar.
pub open spec fn spec_card_mine(cs: Seq<char>) -> Seq<u32> {
    let halves = spec_split_char(cs, ':');
    if halves.len() >= 2 {
        let parts = spec_split_char(halves[1], '|');
        if parts.len() >= 2 {
            spec_nums_of(spec_split_ws(parts[1]), 0)
        } else {
            Seq::empty()
        }
    } else {
        Seq::empty()
    }
}

/// Whether a value occurs in a sequence.
pub open spec fn spec_has_u32(s: Seq<u32>, v: u32) -> bool {
    exists|k: int| 0 <= k < s.len() && s[k] == v
}

/// The own numbers, from index `i` on, that are among the winning numbers,
/// in order.
pub open spec fn spec_winning_of(mine: Seq<u32>, winning: Seq<u32>, i: int) -> Seq<u32>
    decreases mine.len() - i,
{
    if i >= mine.len() {
        Seq::empty()
    } else if spec_has_u32(winning, mine[i]) {
        seq![mine[i]] + spec_winning_of(mine, winning, i + 1)
    } else {
        spec_winning_of(mine, winning, i + 1)
    }
}

/// The score of `n` matches: nothing for none, then doubled per further
/// match; `None` where the doubling leaves the range.
pub open spec fn spec_score(n: int) -> Option<u32>
    decreases n,
{
    if n <= 0 {
        Some(0u32)
    } else {
        match spec_score(n - 1) {
            Some(s) => {
                let s2 = if s == 0 {
                    1int
                } else {
                    2 * s
                };
                if s2 > u32::MAX {
                    None
                } else {
                    Some(s2 as u32)
                }
            },
            None => None,
        }
    }
}

fn has_u32(s: &Vec<u32>, v: u32) -> (r: bool)
    ensures
        r == spec_has_u32(s@, v),
{
    let mut i: usize = 0;
    while i < s.len()
        invariant
            i <= s@.len(),
            forall|k: int| 0 <= k < i ==> s@[k] != v,
        decreases s@.len() - i,
    {
        if s[i] == v {
            return true;
        }
        i = i + 1;
    }
    false
}

impl Card {
    /// Reads one card line: the number before the colon, then the winning
    /// numbers and the own numbers separated by a bar; unreadable tokens are
    /// passed over.
    pub fn new(input: &str) -> (r: Card)
        ensures
            r.number == spec_card_number(spec_trim(input@)),
            r.winning_numbers@ == spec_card_winning(spec_trim(input@)),
            r.my_numbers@ == spec_card_mine(spec_trim(input@)),
    {
        let cs0 = chars_of(input);
        let cs = trim(&cs0);
        Card::from_chars(&cs)
    }

    /// As `new`, over an already split line.
    #[verifier::loop_isolation(false)]
    pub fn from_chars(cs: &Vec<char>) -> (r: Card)
        ensures
            r.number == spec_card_number(cs@),
            r.winning_numbers@ == spec_card_winning(cs@),
            r.my_numbers@ == spec_card_mine(cs@),
    {
        let halves = split_char(cs, ':');
        let digits = digits_of(&halves[0]);
        let number = match parse_u32(&digits) {
            Some(n) => n,
            None => 0,
        };
        let mut winning_numbers: Vec<u32> = Vec::new();
        let mut my_numbers: Vec<u32> = Vec::new();
        if halves.len() >= 2 {
            let parts = split_char(&halves[1], '|');
            let wt = split_ws(&parts[0]);
            let ghost wss = spec_split_ws(spec_split_char(cs@, ':')[1]);
            proof {
                assert(spec_split_char(cs@, ':')[1] == halves@[1]@);
            }
            let ghost wts = spec_split_ws(spec_split_char(spec_split_char(cs@, ':')[1], '|')[0]);
            let mut i: usize = 0;
            proof {
                assert(winning_numbers@ + spec_nums_of(wts, 0) =~= spec_nums_of(wts, 0));
            }
            while i < wt.len()
                invariant
                    i <= wt@.len(),
                    wt@.len() == wts.len(),
                    forall|k: int| 0 <= k < wt@.len() ==> wt@[k]@ == wts[k],
                    spec_nums_of(wts, 0) == winning_numbers@ + spec_nums_of(wts, i as int),
                decreases wt@.len() - i,
            {
                match parse_u32(&wt[i]) {
                    Some(v) => {
                        let ghost wp = winning_numbers@;
                        winning_numbers.push(v);
                        proof {
                            assert(wp + (seq![v] + spec_nums_of(wts, i + 1)) =~= winning_numbers@
                                + spec_nums_of(wts, i + 1));
                        }
                    },
                    None => {},
                }
                i = i + 1;
            }
            proof {
                assert(winning_numbers@ + Seq::<u32>::empty() =~= winning_numbers@);
            }
            if parts.len() >= 2 {
                let mt = split_ws(&parts[1]);
                let ghost mts = spec_split_ws(
                    spec_split_char(spec_split_char(cs@, ':')[1], '|')[1],
                );
                let mut i: usize = 0;
                proof {
                    assert(my_numbers@ + spec_nums_of(mts, 0) =~= spec_nums_of(mts, 0));
                }
                while i < mt.len()
                    invariant
                        i <= mt@.len(),
                        mt@.len() == mts.len(),
                        forall|k: int| 0 <= k < mt@.len() ==> mt@[k]@ == mts[k],
                        spec_nums_of(mts, 0) == my_numbers@ + spec_nums_of(mts, i as int),
                    decreases mt@.len() - i,
                {
                    match parse_u32(&mt[i]) {
                        Some(v) => {
                            let ghost mp = my_numbers@;
                            my_numbers.push(v);
                            proof {
                                assert(mp + (seq![v] + spec_nums_of(mts, i + 1)) =~= my_numbers@
                                    + spec_nums_of(mts, i + 1));
                            }
                        },
                        None => {},
                    }
                    i = i + 1;
                }
                proof {
                    assert(my_numbers@ + Seq::<u32>::empty() =~= my_numbers@);
                }
            }
        }
        Card { number, winning_numbers, my_numbers }
    }

    /// The own numbers that are among the winning numbers, in order.
    pub fn get_my_winning_numbers(&self) -> (r: Vec<u32>)
        ensures
            r@ == spec_winning_of(self.my_numbers@, self.winning_numbers@, 0),
    {
        let mut r: Vec<u32> = Vec::new();
        let mut i: usize = 0;
        while i < self.my_numbers.len()
            invariant
                i <= self.my_numbers@.len(),
                spec_winning_of(self.my_numbers@, self.winning_numbers@, 0) == r@
                    + spec_winning_of(self.my_numbers@, self.winning_numbers@, i as int),
            decreases self.my_numbers@.len() - i,
        {
            let v = self.my_numbers[i];
            let ghost rp = r@;
            if has_u32(&self.winning_numbers, v) {
                r.push(v);
                proof {
                    assert(rp + (seq![v] + spec_winning_of(
                        self.my_numbers@,
                        self.winning_numbers@,
                        i + 1,
                    )) =~= r@ + spec_winning_of(self.my_numbers@, self.winning_numbers@, i + 1));
                }
            }
            i = i + 1;
        }
        proof {
            assert(r@ + Seq::<u32>::empty() =~= r@);
        }
        r
    }

    /// The card's points: one for the first match, doubled for each further
    /// match; zero where the doubling leaves the range.
    #[verifier::loop_isolation(false)]
    pub fn get_score(&self) -> (r: u32)
        ensures
            r == match spec_score(
                spec_winning_of(self.my_numbers@, self.winning_numbers@, 0).len() as int,
            ) {
                Some(v) => v,
                None => 0u32,
            },
    {
        let wins = self.get_my_winning_numbers();
        let n = wins.len();
        let mut score: u32 = 0;
        let mut k: usize = 0;
        while k < n
            invariant
                k <= n,
                spec_score(k as int) == Some(score),
            decreases n - k,
        {
            if score == 0 {
                score = 1;
            } else {
                if score > u32::MAX / 2 {
                    proof {
                        lemma_score_none(n as int, k as int + 1);
                    }
                    return 0;
                }
                score = score * 2;
            }
            k = k + 1;
        }
        score
    }

    /// How many of the own numbers are among the winning numbers, capped at
    /// the counter's range.
    pub fn get_my_winning_numbers_count(&self) -> (r: u32)
        ensures
            r == vstd::math::min(
                spec_winning_of(self.my_numbers@, self.winning_numbers@, 0).len() as int,
                u32::MAX as int,
            ),
    {
        let wins = self.get_my_winning_numbers();
        if wins.len() > u32::MAX as usize {
            u32::MAX
        } else {
            wins.len() as u32
        }
    }
}

/// Once the doubling leaves the range, it stays out for any further matches.
proof fn lemma_score_none(n: int, k: int)
    requires
        0 < k <= n,
        spec_score(k) is None,
    ensures
        spec_score(n) is None,
    decreases n - k,
{
    if k < n {
        lemma_score_none(n, k + 1);
    }
}

/// The points one card line scores.
pub open spec fn spec_line_points(l: Seq<char>) -> u32 {
    let t = spec_trim(l);
    let w = spec_card_winning(t);
    let m = spec_card_mine(t);
    match spec_score(spec_winning_of(m, w, 0).len() as int) {
        Some(v) => v,
        None => 0u32,
    }
}

/// The checked sum of the points of the card lines from index `i` on.
pub open spec fn spec_points_fold(ls: Seq<Seq<char>>, i: int, acc: u32) -> Option<u32>
    decreases ls.len() - i,
{
    if i >= ls.len() {
        Some(acc)
    } else {
        let v = spec_line_points(ls[i]);
        if acc + v > u32::MAX {
            None
        } else {
            spec_points_fold(ls, i + 1, (acc + v) as u32)
        }
    }
}

/// Sums the points of all card lines; zero where the sum leaves the range.
#[verifier::loop_isolation(false)]
pub fn sum_winning_cards_points(input: &str) -> (r: u32)
    ensures
        r == match spec_points_fold(spec_lines(input@), 0, 0u32) {
            Some(v) => v,
            None => 0u32,
        },
{
    let cs = chars_of(input);
    let ls = split_lines(&cs);
    let ghost lss = spec_lines(input@);
    let mut sum: u32 = 0;
    let mut i: usize = 0;
    while i < ls.len()
        invariant
            i <= ls@.len(),
            spec_points_fold(lss, 0, 0u32) == spec_points_fold(lss, i as int, sum),
        decreases ls@.len() - i,
    {
        let t = trim(&ls[i]);
        let card = Card::from_chars(&t);
        let score = card.get_score();
        proof {
            assert(t@ == spec_trim(lss[i as int]));
            assert(score == spec_line_points(lss[i as int]));
        }
        if score > u32::MAX - sum {
            return 0;
        }
        sum = sum + score;
        i = i + 1;
    }
    sum
}

/// The first card with the given number.
fn find_card(cards: &Vec<Card>, n: u32) -> (r: Option<usize>)
    ensures
        r matches Some(i) ==> i < cards@.len() && cards@[i as int].number == n,
{
    let mut i: usize = 0;
    while i < cards.len()
        invariant
            i <= cards@.len(),
        decreases cards@.len() - i,
    {
        if cards[i].number == n {
            return Some(i);
        }
        i = i + 1;
    }
    None
}

fn clone_card(c: &Card) -> (r: Card)
    ensures
        r.number == c.number,
        r.winning_numbers@ == c.winning_numbers@,
        r.my_numbers@ == c.my_numbers@,
{
    let mut winning_numbers: Vec<u32> = Vec::new();
    let mut i: usize = 0;
    while i < c.winning_numbers.len()
        invariant
            i <= c.winning_numbers@.len(),
            winning_numbers@ == c.winning_numbers@.subrange(0, i as int),
        decreases c.winning_numbers@.len() - i,
    {
        winning_numbers.push(c.winning_numbers[i]);
        proof {
            assert(winning_numbers@ =~= c.winning_numbers@.subrange(0, i + 1));
        }
        i = i + 1;
    }
    proof {
        assert(winning_numbers@ =~= c.winning_numbers@);
    }
    let mut my_numbers: Vec<u32> = Vec::new();
    let mut i: usize = 0;
    while i < c.my_numbers.len()
        invariant
            i <= c.my_numbers@.len(),
            my_numbers@ == c.my_numbers@.subrange(0, i as int),
        decreases c.my_numbers@.len() - i,
    {
        my_numbers.push(c.my_numbers[i]);
        proof {
            assert(my_numbers@ =~= c.my_numbers@.subrange(0, i + 1));
        }
        i = i + 1;
    }
    proof {
        assert(my_numbers@ =~= c.my_numbers@);
    }
    Card { number: c.number, winning_numbers, my_numbers }
}

/// The card itself, then recursively the copies it wins: the cards numbered
/// just after it, one per match; numbers without a card are passed over.
pub fn generate_new_cards(initial_cards: &Vec<Card>, card: &Card) -> (r: Vec<Card>)
    decreases u32::MAX - card.number,
{
    let mut cards: Vec<Card> = Vec::new();
    cards.push(clone_card(card));
    let count_winning = card.get_my_winning_numbers_count();
    let start = card.number;
    let mut n: u32 = start;
    let mut steps: u32 = 0;
    while steps < count_winning && n < u32::MAX
        invariant
            n >= start,
            n >= card.number,
        decreases count_winning - steps,
    {
        n = n + 1;
        steps = steps + 1;
        match find_card(initial_cards, n) {
            Some(idx) => {
                let found = &initial_cards[idx];
                if found.number > card.number {
                    let mut more = generate_new_cards(initial_cards, found);
                    let mut k: usize = 0;
                    let more_len = more.len();
                    while k < more_len
                        invariant
                            k <= more_len,
                            more_len == more@.len(),
                        decreases more_len - k,
                    {
                        cards.push(clone_card(&more[k]));
                        k = k + 1;
                    }
                }
            },
            None => {},
        }
    }
    cards
}

/// Counts the cards that end up in hand: each original card and all the
/// copies it transitively wins, capped at the counter's range.
pub fn count_final_cards(input: &str) -> (r: u32)
{
    let cs = chars_of(input);
    let ls = split_lines(&cs);
    let mut initial_cards: Vec<Card> = Vec::new();
    let mut i: usize = 0;
    while i < ls.len()
        invariant
            i <= ls@.len(),
        decreases ls@.len() - i,
    {
        let t = trim(&ls[i]);
        initial_cards.push(Card::from_chars(&t));
        i = i + 1;
    }
    let mut total: u32 = 0;
    let mut i: usize = 0;
    let n = initial_cards.len();
    while i < n
        invariant
            i <= n,
            n == initial_cards@.len(),
        decreases n - i,
    {
        let current = generate_new_cards(&initial_cards, &initial_cards[i]);
        let len = current.len();
        let add: u32 = if len > u32::MAX as usize {
            u32::MAX
        } else {
            len as u32
        };
        if add > u32::MAX - total {
            return 0;
        }
        total = total + add;
        i = i + 1;
    }
    total
}

} // verus!
