//! Cube games: each game lists draws of red, green and blue cubes; a game is
//! possible under a boundary set, and has a minimum set covering all draws.

use vstd::prelude::*;
use crate::text::{chars_of, split_lines, split_char, split_ws, digits_of, parse_u32, trim,
    spec_lines, spec_split_char, spec_split_ws, spec_digits_of, spec_parse_u32, spec_trim};

verus! {

/// One draw, or a boundary: cubes of each color.
#[derive(Clone, Copy, PartialEq, Eq, Structural, Debug)]
pub struct GameSet {
    pub red: u32,
    pub green: u32,
    pub blue: u32,
}

/// A game: its number and its draws.
pub struct Game {
    pub number: u32,
    pub sets: Vec<GameSet>,
}

/// Some draw uses more of a color than the boundary allows.
pub open spec fn spec_exceeds(sets: Seq<GameSet>, b: GameSet) -> bool {
    exists|k: int|
        0 <= k < sets.len() && ((#[trigger] sets[k]).red > b.red || sets[k].green > b.green
            || sets[k].blue > b.blue)
}

/// The larger of two counts.
pub open spec fn spec_max(a: u32, b: u32) -> u32 {
    if a > b {
        a
    } else {
        b
    }
}

/// The componentwise maximum of the first `n` draws.
pub open spec fn spec_min_set(sets: Seq<GameSet>, n: int) -> GameSet
    decreases n,
{
    if n <= 0 {
        GameSet { red: 0, green: 0, blue: 0 }
    } else {
        let rest = spec_min_set(sets, n - 1);
        GameSet {
            red: spec_max(rest.red, sets[n - 1].red),
            green: spec_max(rest.green, sets[n - 1].green),
            blue: spec_max(rest.blue, sets[n - 1].blue),
        }
    }
}

/// The draw a comma-separated piece describes: each readable `count color`
/// item sets its color, the last word wins, other items are passed over.
pub open spec fn spec_gameset_acc(items: Seq<Seq<char>>, i: int, cur: GameSet) -> GameSet
    decreases items.len() - i,
{
    if i >= items.len() {
        cur
    } else {
        let parts = spec_split_ws(items[i]);
        if parts.len() == 2 {
            match spec_parse_u32(parts[0]) {
                Some(c) => if parts[1] == seq!['r', 'e', 'd'] {
                    spec_gameset_acc(items, i + 1, GameSet { red: c, ..cur })
                } else if parts[1] == seq!['g', 'r', 'e', 'e', 'n'] {
                    spec_gameset_acc(items, i + 1, GameSet { green: c, ..cur })
                } else if parts[1] == seq!['b', 'l', 'u', 'e'] {
                    spec_gameset_acc(items, i + 1, GameSet { blue: c, ..cur })
                } else {
                    spec_gameset_acc(items, i + 1, cur)
                },
                None => spec_gameset_acc(items, i + 1, cur),
            }
        } else {
            spec_gameset_acc(items, i + 1, cur)
        }
    }
}

/// The draw a whole piece describes, started from an empty set.
pub open spec fn spec_gameset_of(cs: Seq<char>) -> GameSet {
    spec_gameset_acc(spec_split_char(cs, ','), 0, GameSet { red: 0, green: 0, blue: 0 })
}

/// The game number written before the colon: its digits, read as a number.
pub open spec fn spec_game_number(cs: Seq<char>) -> u32 {
    match spec_parse_u32(spec_digits_of(spec_split_char(cs, ':')[0])) {
        Some(n) => n,
        None => 0u32,
    }
}

/// The draws of a game line: one per semicolon-separated piece.
pub open spec fn spec_game_sets(draws: Seq<Seq<char>>, i: int) -> Seq<GameSet>
    decreases draws.len() - i,
{
    if i >= draws.len() {
        Seq::empty()
    } else {
        seq![spec_gameset_of(draws[i])] + spec_game_sets(draws, i + 1)
    }
}

/// The draws written after a game line's colon.
pub open spec fn spec_game_sets_of(cs: Seq<char>) -> Seq<GameSet> {
    let halves = spec_split_char(cs, ':');
    if halves.len() >= 2 {
        spec_game_sets(spec_split_char(halves[1], ';'), 0)
    } else {
        Seq::empty()
    }
}

fn token_is(tok: &Vec<char>, w: &Vec<char>) -> (r: bool)
    ensures
        r == (tok@ == w@),
{
    if tok.len() != w.len() {
        return false;
    }
    let mut i: usize = 0;
    while i < tok.len()
        invariant
            i <= tok@.len(),
            tok@.len() == w@.len(),
            forall|k: int| 0 <= k < i ==> tok@[k] == w@[k],
        decreases tok@.len() - i,
    {
        if tok[i] != w[i] {
            return false;
        }
        i = i + 1;
    }
    proof {
        assert(tok@ =~= w@);
    }
    true
}

impl GameSet {
    /// Reads one draw, a comma-separated list of `count color` items; items
    /// that do not read as a count and a known color are passed over.
    pub fn from(set: &str) -> (r: GameSet)
        ensures
            r == spec_gameset_of(set@),
    {
        let cs = chars_of(set);
        GameSet::from_chars(&cs)
    }

    /// As `from`, over an already split piece.
    #[verifier::loop_isolation(false)]
    pub fn from_chars(cs: &Vec<char>) -> (r: GameSet)
        ensures
            r == spec_gameset_of(cs@),
    {
        let red_w = vec!['r', 'e', 'd'];
        let green_w = vec!['g', 'r', 'e', 'e', 'n'];
        let blue_w = vec!['b', 'l', 'u', 'e'];
        proof {
            assert(red_w@ =~= seq!['r', 'e', 'd']);
            assert(green_w@ =~= seq!['g', 'r', 'e', 'e', 'n']);
            assert(blue_w@ =~= seq!['b', 'l', 'u', 'e']);
        }
        let items = split_char(cs, ',');
        let ghost iss = spec_split_char(cs@, ',');
        let mut red: u32 = 0;
        let mut green: u32 = 0;
        let mut blue: u32 = 0;
        let mut i: usize = 0;
        while i < items.len()
            invariant
                i <= items@.len(),
                spec_gameset_of(cs@) == spec_gameset_acc(
                    iss,
                    i as int,
                    GameSet { red, green, blue },
                ),
            decreases items@.len() - i,
        {
            let parts = split_ws(&items[i]);
            proof {
                assert(items@[i as int]@ == iss[i as int]);
            }
            if parts.len() == 2 {
                match parse_u32(&parts[0]) {
                    Some(count) => {
                        proof {
                            assert(parts@[0]@ == spec_split_ws(iss[i as int])[0]);
                            assert(parts@[1]@ == spec_split_ws(iss[i as int])[1]);
                        }
                        if token_is(&parts[1], &red_w) {
                            red = count;
                        } else if token_is(&parts[1], &green_w) {
                            green = count;
                        } else if token_is(&parts[1], &blue_w) {
                            blue = count;
                        }
                    },
                    None => {},
                }
            }
            i = i + 1;
        }
        GameSet { red, green, blue }
    }
}

impl Game {
    /// Reads one line: the game number before the colon, then the draws
    /// separated by semicolons.
    pub fn from(game: &str) -> (r: Game)
        ensures
            r.number == spec_game_number(spec_trim(game@)),
            r.sets@ == spec_game_sets_of(spec_trim(game@)),
    {
        let cs0 = chars_of(game);
        let cs = trim(&cs0);
        Game::from_chars(&cs)
    }

    /// As `from`, over an already split line.
    #[verifier::loop_isolation(false)]
    pub fn from_chars(cs: &Vec<char>) -> (r: Game)
        ensures
            r.number == spec_game_number(cs@),
            r.sets@ == spec_game_sets_of(cs@),
    {
        let halves = split_char(cs, ':');
        let digits = digits_of(&halves[0]);
        let number = match parse_u32(&digits) {
            Some(n) => n,
            None => 0,
        };
        let mut sets: Vec<GameSet> = Vec::new();
        if halves.len() >= 2 {
            let draws = split_char(&halves[1], ';');
            let ghost dss = spec_split_char(spec_split_char(cs@, ':')[1], ';');
            proof {
                assert(spec_split_char(cs@, ':')[1] == halves@[1]@);
                assert(sets@ + spec_game_sets(dss, 0) =~= spec_game_sets(dss, 0));
            }
            let mut i: usize = 0;
            while i < draws.len()
                invariant
                    i <= draws@.len(),
                    draws@.len() == dss.len(),
                    forall|k: int| 0 <= k < draws@.len() ==> draws@[k]@ == dss[k],
                    spec_game_sets(dss, 0) == sets@ + spec_game_sets(dss, i as int),
                decreases draws@.len() - i,
            {
                let gs = GameSet::from_chars(&draws[i]);
                let ghost sp = sets@;
                sets.push(gs);
                proof {
                    assert(sp + (seq![spec_gameset_of(dss[i as int])] + spec_game_sets(
                        dss,
                        i + 1,
                    )) =~= sets@ + spec_game_sets(dss, i + 1));
                }
                i = i + 1;
            }
            proof {
                assert(sets@ + Seq::<GameSet>::empty() =~= sets@);
            }
        }
        Game { number, sets }
    }

    /// Whether some draw of the game exceeds the boundary in any color.
    pub fn exceeds(&self, boundaries: &GameSet) -> (r: bool)
        ensures
            r == spec_exceeds(self.sets@, *boundaries),
    {
        let mut i: usize = 0;
        while i < self.sets.len()
            invariant
                i <= self.sets@.len(),
                forall|k: int|
                    0 <= k < i ==> !((#[trigger] self.sets@[k]).red > boundaries.red
                        || self.sets@[k].green > boundaries.green || self.sets@[k].blue
                        > boundaries.blue),
            decreases self.sets@.len() - i,
        {
            let s = self.sets[i];
            if s.red > boundaries.red || s.green > boundaries.green || s.blue > boundaries.blue {
                return true;
            }
            i = i + 1;
        }
        false
    }

    /// The smallest set of cubes that covers every draw: the componentwise
    /// maximum.
    pub fn minimum_gameset(&self) -> (r: GameSet)
        ensures
            r == spec_min_set(self.sets@, self.sets@.len() as int),
    {
        let mut red: u32 = 0;
        let mut green: u32 = 0;
        let mut blue: u32 = 0;
        let mut i: usize = 0;
        while i < self.sets.len()
            invariant
                i <= self.sets@.len(),
                (GameSet { red, green, blue }) == spec_min_set(self.sets@, i as int),
            decreases self.sets@.len() - i,
        {
            let s = self.sets[i];
            if s.red > red {
                red = s.red;
            }
            if s.green > green {
                green = s.green;
            }
            if s.blue > blue {
                blue = s.blue;
            }
            i = i + 1;
        }
        GameSet { red, green, blue }
    }
}

/// The checked sum of the numbers of the possible games from line `i` on:
/// games whose draws never exceed twelve red, thirteen green and fourteen
/// blue cubes.
pub open spec fn spec_ids_fold(ls: Seq<Seq<char>>, i: int, acc: u32) -> Option<u32>
    decreases ls.len() - i,
{
    if i >= ls.len() {
        Some(acc)
    } else {
        let t = spec_trim(ls[i]);
        if spec_exceeds(spec_game_sets_of(t), GameSet { red: 12, green: 13, blue: 14 }) {
            spec_ids_fold(ls, i + 1, acc)
        } else {
            let v = spec_game_number(t);
            if acc + v > u32::MAX {
                None
            } else {
                spec_ids_fold(ls, i + 1, (acc + v) as u32)
            }
        }
    }
}

/// Sums the numbers of the games whose draws never exceed twelve red,
/// thirteen green and fourteen blue cubes; zero where the sum leaves the
/// range.
#[verifier::loop_isolation(false)]
pub fn sum_possible_game_ids(input: &str) -> (r: u32)
    ensures
        r == match spec_ids_fold(spec_lines(input@), 0, 0u32) {
            Some(v) => v,
            None => 0u32,
        },
{
    let boundaries = GameSet { red: 12, green: 13, blue: 14 };
    let cs = chars_of(input);
    let ls = split_lines(&cs);
    let ghost lss = spec_lines(input@);
    let mut sum: u32 = 0;
    let mut i: usize = 0;
    while i < ls.len()
        invariant
            i <= ls@.len(),
            spec_ids_fold(lss, 0, 0u32) == spec_ids_fold(lss, i as int, sum),
        decreases ls@.len() - i,
    {
        let t = trim(&ls[i]);
        let game = Game::from_chars(&t);
        if !game.exceeds(&boundaries) {
            if game.number > u32::MAX - sum {
                return 0;
            }
            sum = sum + game.number;
        }
        i = i + 1;
    }
    sum
}

/// The checked sum of the powers of the games' minimum sets from line `i`
/// on: each power the product of the three componentwise maxima.
pub open spec fn spec_power_fold(ls: Seq<Seq<char>>, i: int, acc: u32) -> Option<u32>
    decreases ls.len() - i,
{
    if i >= ls.len() {
        Some(acc)
    } else {
        let sets = spec_game_sets_of(spec_trim(ls[i]));
        let m = spec_min_set(sets, sets.len() as int);
        let rg = m.red * m.green;
        if rg > u32::MAX {
            None
        } else {
            let p = rg * m.blue;
            if p > u32::MAX {
                None
            } else if acc + p > u32::MAX {
                None
            } else {
                spec_power_fold(ls, i + 1, (acc + p) as u32)
            }
        }
    }
}

/// Sums, over all games, the power of the minimum set: the product of its
/// three counts; zero where a product or the sum leaves the range.
#[verifier::loop_isolation(false)]
pub fn sum_power_minimum_gameset(input: &str) -> (r: u32)
    ensures
        r == match spec_power_fold(spec_lines(input@), 0, 0u32) {
            Some(v) => v,
            None => 0u32,
        },
{
    let cs = chars_of(input);
    let ls = split_lines(&cs);
    let ghost lss = spec_lines(input@);
    let mut sum: u32 = 0;
    let mut i: usize = 0;
    while i < ls.len()
        invariant
            i <= ls@.len(),
            spec_power_fold(lss, 0, 0u32) == spec_power_fold(lss, i as int, sum),
        decreases ls@.len() - i,
    {
        let t = trim(&ls[i]);
        let game = Game::from_chars(&t);
        let m = game.minimum_gameset();
        proof {
            assert(m.red as u64 * m.green as u64 <= u32::MAX as u64 * u32::MAX as u64)
                by (nonlinear_arith)
                requires
                    0 <= m.red as u64 <= u32::MAX as u64,
                    0 <= m.green as u64 <= u32::MAX as u64,
            ;
        }
        let power_wide = m.red as u64 * m.green as u64;
        if power_wide > u32::MAX as u64 {
            return 0;
        }
        proof {
            assert(power_wide * (m.blue as u64) <= u32::MAX as u64 * u32::MAX as u64)
                by (nonlinear_arith)
                requires
                    0 <= power_wide <= u32::MAX as u64,
                    0 <= m.blue as u64 <= u32::MAX as u64,
            ;
        }
        let power2_wide = power_wide * m.blue as u64;
        if power2_wide > u32::MAX as u64 {
            return 0;
        }
        let power = power2_wide as u32;
        if power > u32::MAX - sum {
            return 0;
        }
        sum = sum + power;
        i = i + 1;
    }
    sum
}

} // verus!
