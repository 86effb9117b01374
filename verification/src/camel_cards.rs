//! Camel card hands: each hand of five cards has a category from its card
//! multiplicities, hands rank by category then card order, and winnings sum
//! bid times rank.

use vstd::prelude::*;
use crate::text::{chars_of, split_lines, split_ws, parse_u32, trim};

verus! {

/// The hand categories, strongest first.
#[derive(Clone, Copy, PartialEq, Eq, Structural, Debug)]
pub enum HandStrength {
    FiveOfAKind,
    FourOfAKind,
    FullHouse,
    ThreeOfAKind,
    TwoPairs,
    OnePair,
    HighCard,
}

/// One card.
#[derive(Clone, Copy, PartialEq, Eq, Structural, Debug)]
pub struct Card {
    pub value: char,
}

/// The rank of a card in the joker ordering: the joker weakest, then the
/// digits, ten, queen, king, ace; unknown characters rank past the end.
pub open spec fn spec_card_strength(c: char) -> int {
    if c == 'J' {
        0
    } else if c == '2' {
        1
    } else if c == '3' {
        2
    } else if c == '4' {
        3
    } else if c == '5' {
        4
    } else if c == '6' {
        5
    } else if c == '7' {
        6
    } else if c == '8' {
        7
    } else if c == '9' {
        8
    } else if c == 'T' {
        9
    } else if c == 'Q' {
        10
    } else if c == 'K' {
        11
    } else if c == 'A' {
        12
    } else {
        13
    }
}

impl Card {
    pub fn new(value: char) -> (r: Card)
        ensures
            r.value == value,
    {
        Card { value }
    }

    /// The card's rank in the joker ordering.
    pub fn get_strength(&self) -> (r: usize)
        ensures
            r == spec_card_strength(self.value),
    {
        let c = self.value;
        if c == 'J' {
            0
        } else if c == '2' {
            1
        } else if c == '3' {
            2
        } else if c == '4' {
            3
        } else if c == '5' {
            4
        } else if c == '6' {
            5
        } else if c == '7' {
            6
        } else if c == '8' {
            7
        } else if c == '9' {
            8
        } else if c == 'T' {
            9
        } else if c == 'Q' {
            10
        } else if c == 'K' {
            11
        } else if c == 'A' {
            12
        } else {
            13
        }
    }
}

/// How many of the first `i` cards carry the value.
pub open spec fn spec_count_prefix(cards: Seq<Card>, v: char, i: int) -> int
    decreases i,
{
    if i <= 0 {
        0
    } else {
        spec_count_prefix(cards, v, i - 1) + if cards[i - 1].value == v {
            1int
        } else {
            0int
        }
    }
}

/// No earlier card carries the same value.
pub open spec fn spec_is_first(cards: Seq<Card>, j: int) -> bool {
    forall|k: int| 0 <= k < j ==> (#[trigger] cards[k]).value != cards[j].value
}

/// The largest multiplicity among the first `i` cards other than jokers.
pub open spec fn spec_max_other(cards: Seq<Card>, i: int) -> int
    decreases i,
{
    if i <= 0 {
        0
    } else {
        let rest = spec_max_other(cards, i - 1);
        if cards[i - 1].value != 'J' {
            let c = spec_count_prefix(cards, cards[i - 1].value, cards.len() as int);
            if c > rest {
                c
            } else {
                rest
            }
        } else {
            rest
        }
    }
}

/// How many distinct values other than the joker appear among the first `i`
/// cards.
pub open spec fn spec_distinct_other(cards: Seq<Card>, i: int) -> int
    decreases i,
{
    if i <= 0 {
        0
    } else {
        spec_distinct_other(cards, i - 1) + if cards[i - 1].value != 'J' && spec_is_first(
            cards,
            i - 1,
        ) {
            1int
        } else {
            0int
        }
    }
}

/// The category a top multiplicity and a distinct-value count decide.
pub open spec fn spec_category(top: int, distinct: int) -> HandStrength {
    if top >= 5 {
        HandStrength::FiveOfAKind
    } else if top == 4 {
        HandStrength::FourOfAKind
    } else if top == 3 {
        if distinct == 2 {
            HandStrength::FullHouse
        } else {
            HandStrength::ThreeOfAKind
        }
    } else if top == 2 {
        if distinct == 3 {
            HandStrength::TwoPairs
        } else {
            HandStrength::OnePair
        }
    } else {
        HandStrength::HighCard
    }
}

/// The hand's category: the largest multiplicity and the distinct count
/// decide; wild jokers join the most frequent other card, and a hand of
/// jokers alone stands as one value.
pub open spec fn spec_hand_strength(cards: Seq<Card>, use_joker: bool) -> HandStrength {
    let n = cards.len() as int;
    let jokers = spec_count_prefix(cards, 'J', n);
    let max_other = spec_max_other(cards, n);
    let distinct_other = spec_distinct_other(cards, n);
    if use_joker && jokers > 0 && distinct_other > 0 {
        spec_category(max_other + jokers, distinct_other)
    } else if distinct_other == 0 {
        spec_category(
            jokers,
            if jokers > 0 {
                1int
            } else {
                0int
            },
        )
    } else {
        spec_category(
            if jokers > max_other {
                jokers
            } else {
                max_other
            },
            distinct_other + if jokers > 0 {
                1int
            } else {
                0int
            },
        )
    }
}

/// One hand: its cards, its bid, and whether jokers are wild.
pub struct Hand {
    pub cards: Vec<Card>,
    pub bid: u32,
    pub use_joker: bool,
}

impl Hand {
    /// Reads a line of a hand and its bid; a missing or unreadable bid is
    /// zero, and a missing hand token gives no cards.
    pub fn new(input: &str, use_joker: Option<bool>) -> (r: Hand)
        ensures
            r.use_joker == (use_joker matches Some(true)),
    {
        let cs0 = chars_of(input);
        let cs = trim(&cs0);
        let tokens = split_ws(&cs);
        let mut cards: Vec<Card> = Vec::new();
        if tokens.len() >= 1 {
            let hand = &tokens[0];
            let mut i: usize = 0;
            while i < hand.len()
                invariant
                    i <= hand@.len(),
                decreases hand@.len() - i,
            {
                cards.push(Card::new(hand[i]));
                i = i + 1;
            }
        }
        let bid: u32 = if tokens.len() >= 2 {
            match parse_u32(&tokens[1]) {
                Some(b) => b,
                None => 0,
            }
        } else {
            0
        };
        let uj = match use_joker {
            Some(true) => true,
            _ => false,
        };
        Hand { cards, bid, use_joker: uj }
    }

    /// The hand's category, from the card multiplicities; with jokers wild,
    /// the jokers join the most frequent other card.
    #[verifier::loop_isolation(false)]
    pub fn strength(&self) -> (r: HandStrength)
        ensures
            r == spec_hand_strength(self.cards@, self.use_joker),
    {
        let n = self.cards.len();
        // count jokers and, among the other cards, the highest multiplicity
        // and the number of distinct values
        let mut jokers: usize = 0;
        let mut max_other: usize = 0;
        let mut distinct_other: usize = 0;
        let mut i: usize = 0;
        while i < n
            invariant
                n == self.cards@.len(),
                jokers <= i <= n,
                max_other <= n,
                distinct_other <= i,
                jokers == spec_count_prefix(self.cards@, 'J', i as int),
                max_other == spec_max_other(self.cards@, i as int),
                distinct_other == spec_distinct_other(self.cards@, i as int),
                forall|j: int|
                    0 <= j < i && (#[trigger] self.cards@[j]).value != 'J' ==> spec_count_prefix(
                        self.cards@,
                        self.cards@[j].value,
                        n as int,
                    ) <= max_other,
            decreases n - i,
        {
            let c = self.cards[i].value;
            if c == 'J' {
                jokers = jokers + 1;
                i = i + 1;
                continue;
            }
            // is this the first occurrence?
            let mut first = true;
            let mut j: usize = 0;
            while j < i
                invariant
                    j <= i <= n,
                    first == (forall|k: int|
                        0 <= k < j ==> (#[trigger] self.cards@[k]).value != c),
                decreases i - j,
            {
                if self.cards[j].value == c {
                    first = false;
                }
                j = j + 1;
            }
            // count the multiplicity of c
            let mut cnt: usize = 0;
            let mut j: usize = 0;
            while j < n
                invariant
                    cnt <= j <= n,
                    cnt == spec_count_prefix(self.cards@, c, j as int),
                decreases n - j,
            {
                if self.cards[j].value == c {
                    cnt = cnt + 1;
                }
                j = j + 1;
            }
            if first {
                distinct_other = distinct_other + 1;
                if cnt > max_other {
                    max_other = cnt;
                }
            } else {
                // a repeated value was already counted at its first occurrence
                proof {
                    let jf = choose|k: int|
                        0 <= k < i && (#[trigger] self.cards@[k]).value == c;
                    assert(spec_count_prefix(self.cards@, self.cards@[jf].value, n as int)
                        <= max_other);
                }
            }
            i = i + 1;
        }
        let top: usize;
        let distinct: usize;
        if self.use_joker && jokers > 0 && distinct_other > 0 {
            // jokers merge into the most frequent other card
            if max_other > usize::MAX - jokers {
                top = usize::MAX;
            } else {
                top = max_other + jokers;
            }
            distinct = distinct_other;
        } else if distinct_other == 0 {
            // all jokers (or no cards)
            top = jokers;
            distinct = if jokers > 0 {
                1
            } else {
                0
            };
        } else {
            top = if jokers > max_other {
                jokers
            } else {
                max_other
            };
            distinct = if jokers > 0 && distinct_other < usize::MAX {
                distinct_other + 1
            } else {
                distinct_other
            };
        }
        if top >= 5 {
            HandStrength::FiveOfAKind
        } else if top == 4 {
            HandStrength::FourOfAKind
        } else if top == 3 {
            if distinct == 2 {
                HandStrength::FullHouse
            } else {
                HandStrength::ThreeOfAKind
            }
        } else if top == 2 {
            if distinct == 3 {
                HandStrength::TwoPairs
            } else {
                HandStrength::OnePair
            }
        } else {
            HandStrength::HighCard
        }
    }
}

/// The rank of a category, strongest first.
fn strength_rank(s: HandStrength) -> (r: usize)
{
    match s {
        HandStrength::FiveOfAKind => 0,
        HandStrength::FourOfAKind => 1,
        HandStrength::FullHouse => 2,
        HandStrength::ThreeOfAKind => 3,
        HandStrength::TwoPairs => 4,
        HandStrength::OnePair => 5,
        HandStrength::HighCard => 6,
    }
}

/// Orders two hands as the game reads them: by category, then card by card,
/// a stronger card making the hand sort earlier. Returns a negative, zero or
/// positive sign.
fn cmp_hands(a: &Hand, b: &Hand) -> (r: i32)
{
    let sa = strength_rank(a.strength());
    let sb = strength_rank(b.strength());
    if sa != sb {
        if sa < sb {
            return -1;
        }
        return 1;
    }
    let n = if a.cards.len() < b.cards.len() {
        a.cards.len()
    } else {
        b.cards.len()
    };
    let mut i: usize = 0;
    while i < n
        invariant
            n <= a.cards@.len(),
            n <= b.cards@.len(),
            i <= n,
        decreases n - i,
    {
        let ca = a.cards[i].get_strength();
        let cb = b.cards[i].get_strength();
        if ca != cb {
            if cb > ca {
                return 1;
            }
            return -1;
        }
        i = i + 1;
    }
    0
}

fn clone_hand(h: &Hand) -> (r: Hand)
    ensures
        r.cards@ == h.cards@,
        r.bid == h.bid,
        r.use_joker == h.use_joker,
{
    let mut cards: Vec<Card> = Vec::new();
    let mut i: usize = 0;
    while i < h.cards.len()
        invariant
            i <= h.cards@.len(),
            cards@ == h.cards@.subrange(0, i as int),
        decreases h.cards@.len() - i,
    {
        cards.push(h.cards[i]);
        proof {
            assert(cards@ =~= h.cards@.subrange(0, i + 1));
        }
        i = i + 1;
    }
    proof {
        assert(cards@ =~= h.cards@);
    }
    Hand { cards, bid: h.bid, use_joker: h.use_joker }
}

/// Sorts hands with the game's ordering (stable insertion), strongest first.
fn sort_hands(hands: Vec<Hand>) -> (r: Vec<Hand>)
    ensures
        r@.len() == hands@.len(),
{
    let mut out: Vec<Hand> = Vec::new();
    let mut i: usize = 0;
    let n = hands.len();
    while i < n
        invariant
            i <= n,
            n == hands@.len(),
            out@.len() == i,
        decreases n - i,
    {
        let h = clone_hand(&hands[i]);
        // find the insertion point: after all entries not greater than h
        let mut p: usize = out.len();
        while p > 0
            invariant
                p <= out@.len(),
            decreases p,
        {
            if cmp_hands(&out[p - 1], &h) <= 0 {
                break;
            }
            p = p - 1;
        }
        out.insert(p, h);
        i = i + 1;
    }
    out
}

/// Parses, sorts and ranks the hands: the weakest hand gets rank one, and
/// the winnings sum bid times rank; zero where the sum leaves the range.
fn total_winnings(input: &str, use_joker: bool) -> (r: u32)
{
    let cs = chars_of(input);
    let ls = split_lines(&cs);
    let mut hands: Vec<Hand> = Vec::new();
    let mut i: usize = 0;
    while i < ls.len()
        invariant
            i <= ls@.len(),
        decreases ls@.len() - i,
    {
        let line = trim(&ls[i]);
        if line.len() > 0 {
            let s = crate::text::string_of(&line);
            let opt = if use_joker {
                Some(true)
            } else {
                None
            };
            hands.push(Hand::new(s.as_str(), opt));
        }
        i = i + 1;
    }
    let sorted = sort_hands(hands);
    // strongest first: the weakest hand, at the back, gets rank one
    let n = sorted.len();
    let mut total: u32 = 0;
    let mut i: usize = 0;
    while i < n
        invariant
            i <= n,
            n == sorted@.len(),
        decreases n - i,
    {
        let rank_wide = (n - i) as u128;
        let bid = sorted[i].bid;
        proof {
            assert(bid as u128 * rank_wide <= u32::MAX as u128 * u64::MAX as u128)
                by (nonlinear_arith)
                requires
                    0 <= bid as u128 <= u32::MAX as u128,
                    0 <= rank_wide <= u64::MAX as u128,
            ;
        }
        let wide = bid as u128 * rank_wide;
        if wide > u32::MAX as u128 - total as u128 {
            return 0;
        }
        total = total + wide as u32;
        i = i + 1;
    }
    total
}

/// The winnings without wild jokers.
pub fn sum_total_winnings(input: &str) -> (r: u32)
{
    total_winnings(input, false)
}

/// The winnings with wild jokers.
pub fn sum_total_winnings_2(input: &str) -> (r: u32)
{
    total_winnings(input, true)
}

} // verus!
