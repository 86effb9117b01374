//! The garden almanac: chained range maps carry a seed through soil,
//! fertilizer, water, light, temperature and humidity to its location.

use vstd::prelude::*;
use crate::text::{chars_of, split_lines, split_ws, parse_u64, trim, spec_split_ws, spec_trim,
    spec_parse_u64, spec_lines, spec_split_char};

verus! {

/// One map range: sources `min..=max` move by `add`.
#[derive(Clone, Copy, PartialEq, Eq, Structural, Debug)]
pub struct Range {
    pub min: u64,
    pub max: u64,
    pub add: i64,
}

/// The range a line of three numbers stands for: destination start, source
/// start and length; a line that does not read as three numbers, a zero
/// length, or bounds out of range give the zero range.
pub open spec fn spec_range_of(l: Seq<char>) -> Range {
    let ts = spec_split_ws(l);
    if ts.len() < 3 {
        Range { min: 0, max: 0, add: 0 }
    } else {
        match (spec_parse_u64(ts[0]), spec_parse_u64(ts[1]), spec_parse_u64(ts[2])) {
            (Some(d), Some(s), Some(len)) => {
                if len == 0 || s + len - 1 > u64::MAX || d - s > i64::MAX || d - s < i64::MIN {
                    Range { min: 0, max: 0, add: 0 }
                } else {
                    Range { min: s, max: (s + len - 1) as u64, add: (d - s) as i64 }
                }
            },
            _ => Range { min: 0, max: 0, add: 0 },
        }
    }
}

impl Range {
    /// Reads one map line of destination start, source start and length.
    pub fn new(line: &str) -> (r: Range)
        ensures
            r == spec_range_of(spec_trim(line@)),
    {
        let cs0 = chars_of(line);
        let cs = trim(&cs0);
        Range::from_chars(&cs)
    }

    /// As `new`, over an already split line.
    pub fn from_chars(cs: &Vec<char>) -> (r: Range)
        ensures
            r == spec_range_of(cs@),
    {
        let zero = Range { min: 0, max: 0, add: 0 };
        let ts = split_ws(cs);
        if ts.len() < 3 {
            return zero;
        }
        let d = match parse_u64(&ts[0]) {
            Some(v) => v,
            None => {
                return zero;
            },
        };
        let s = match parse_u64(&ts[1]) {
            Some(v) => v,
            None => {
                return zero;
            },
        };
        let len = match parse_u64(&ts[2]) {
            Some(v) => v,
            None => {
                return zero;
            },
        };
        if len == 0 {
            return zero;
        }
        if len - 1 > u64::MAX - s {
            return zero;
        }
        let diff: i128 = d as i128 - s as i128;
        if diff > i64::MAX as i128 || diff < i64::MIN as i128 {
            return zero;
        }
        Range { min: s, max: s + (len - 1), add: diff as i64 }
    }
}

/// The destination of a value: the first range holding it moves it by its
/// offset, clamped to the value range; without one the value stays.
pub open spec fn spec_find_dest(ranges: Seq<Range>, value: u64, i: int) -> u64
    decreases ranges.len() - i,
{
    if i >= ranges.len() {
        value
    } else if value >= ranges[i].min && value <= ranges[i].max {
        if 0 <= value + ranges[i].add <= u64::MAX {
            (value + ranges[i].add) as u64
        } else {
            value
        }
    } else {
        spec_find_dest(ranges, value, i + 1)
    }
}

/// An ordered collection of map ranges.
pub struct RangeSet {
    pub ranges: Vec<Range>,
}

impl RangeSet {
    pub fn new() -> (r: RangeSet)
        ensures
            r.ranges@.len() == 0,
    {
        RangeSet { ranges: Vec::new() }
    }

    /// Moves a value through the first range holding it.
    pub fn find_destination(&self, value: u64) -> (r: u64)
        ensures
            r == spec_find_dest(self.ranges@, value, 0),
    {
        let mut i: usize = 0;
        while i < self.ranges.len()
            invariant
                i <= self.ranges@.len(),
                spec_find_dest(self.ranges@, value, 0) == spec_find_dest(
                    self.ranges@,
                    value,
                    i as int,
                ),
            decreases self.ranges@.len() - i,
        {
            let rg = self.ranges[i];
            if value >= rg.min && value <= rg.max {
                let shifted: i128 = value as i128 + rg.add as i128;
                if shifted >= 0 && shifted <= u64::MAX as i128 {
                    return shifted as u64;
                }
                return value;
            }
            i = i + 1;
        }
        value
    }
}

/// The numbers written by a token list, unreadable tokens passed over.
pub open spec fn spec_nums64_of(ts: Seq<Seq<char>>, i: int) -> Seq<u64>
    decreases ts.len() - i,
{
    if i >= ts.len() {
        Seq::empty()
    } else {
        match spec_parse_u64(ts[i]) {
            Some(v) => seq![v] + spec_nums64_of(ts, i + 1),
            None => spec_nums64_of(ts, i + 1),
        }
    }
}

/// The seeds written on the almanac's first line, after its colon; none when
/// the first line is blank or carries no colon.
pub open spec fn spec_seeds_of(ls: Seq<Seq<char>>) -> Seq<u64> {
    if ls.len() == 0 || spec_trim(ls[0]).len() == 0 {
        Seq::empty()
    } else {
        let halves = spec_split_char(spec_trim(ls[0]), ':');
        if halves.len() >= 2 {
            spec_nums64_of(spec_split_ws(halves[1]), 0)
        } else {
            Seq::empty()
        }
    }
}

/// The section a trimmed line opens, if it is a header.
pub open spec fn spec_header_step(t: Seq<char>) -> Option<int> {
    if t == "seed-to-soil map:"@ {
        Some(1int)
    } else if t == "soil-to-fertilizer map:"@ {
        Some(2int)
    } else if t == "fertilizer-to-water map:"@ {
        Some(3int)
    } else if t == "water-to-light map:"@ {
        Some(4int)
    } else if t == "light-to-temperature map:"@ {
        Some(5int)
    } else if t == "temperature-to-humidity map:"@ {
        Some(6int)
    } else if t == "humidity-to-location map:"@ {
        Some(7int)
    } else {
        None
    }
}

/// The ranges that land in section `want`, reading the lines from `i` on
/// while section `step` is open: blank lines and the first line are passed
/// over, headers switch the section, and every other line is a range line of
/// the open section.
pub open spec fn spec_section_acc(ls: Seq<Seq<char>>, i: int, step: int, want: int) -> Seq<Range>
    decreases ls.len() - i,
{
    if i >= ls.len() {
        Seq::empty()
    } else {
        let t = spec_trim(ls[i]);
        if t.len() == 0 || i == 0 {
            spec_section_acc(ls, i + 1, step, want)
        } else {
            match spec_header_step(t) {
                Some(ns) => spec_section_acc(ls, i + 1, ns, want),
                None => if step == want {
                    seq![spec_range_of(t)] + spec_section_acc(ls, i + 1, step, want)
                } else {
                    spec_section_acc(ls, i + 1, step, want)
                },
            }
        }
    }
}

/// The ranges of section `want` of a whole almanac text.
pub open spec fn spec_section_of(s: Seq<char>, want: int) -> Seq<Range> {
    spec_section_acc(spec_lines(s), 0, 0, want)
}

/// The almanac: the seeds and the seven range maps, in pipeline order.
pub struct Almanac {
    pub seeds: Vec<u64>,
    pub seeds_to_soil: RangeSet,
    pub soil_to_fertilizer: RangeSet,
    pub fertilizer_to_water: RangeSet,
    pub water_to_light: RangeSet,
    pub light_to_temperature: RangeSet,
    pub temperature_to_humidity: RangeSet,
    pub humidity_to_location: RangeSet,
}

impl Almanac {
    /// Reads the whole almanac: the seed list on the first line, then one
    /// block of range lines per section header; unreadable numbers are
    /// passed over.
    #[verifier::loop_isolation(false)]
    pub fn new(input: &str) -> (r: Almanac)
        ensures
            r.seeds@ == spec_seeds_of(spec_lines(input@)),
            r.seeds_to_soil.ranges@ == spec_section_of(input@, 1),
            r.soil_to_fertilizer.ranges@ == spec_section_of(input@, 2),
            r.fertilizer_to_water.ranges@ == spec_section_of(input@, 3),
            r.water_to_light.ranges@ == spec_section_of(input@, 4),
            r.light_to_temperature.ranges@ == spec_section_of(input@, 5),
            r.temperature_to_humidity.ranges@ == spec_section_of(input@, 6),
            r.humidity_to_location.ranges@ == spec_section_of(input@, 7),
    {
        let cs = chars_of(input);
        let ls = split_lines(&cs);
        let ghost lss = spec_lines(input@);
        let mut seeds: Vec<u64> = Vec::new();
        let mut seeds_to_soil = RangeSet::new();
        let mut soil_to_fertilizer = RangeSet::new();
        let mut fertilizer_to_water = RangeSet::new();
        let mut water_to_light = RangeSet::new();
        let mut light_to_temperature = RangeSet::new();
        let mut temperature_to_humidity = RangeSet::new();
        let mut humidity_to_location = RangeSet::new();
        // which section the reader stands in
        let mut step: u8 = 0;
        let h1 = chars_of("seed-to-soil map:");
        let h2 = chars_of("soil-to-fertilizer map:");
        let h3 = chars_of("fertilizer-to-water map:");
        let h4 = chars_of("water-to-light map:");
        let h5 = chars_of("light-to-temperature map:");
        let h6 = chars_of("temperature-to-humidity map:");
        let h7 = chars_of("humidity-to-location map:");
        let mut i: usize = 0;
        proof {
            assert(seeds_to_soil.ranges@ + spec_section_acc(lss, 0, 0, 1) =~= spec_section_acc(
                lss,
                0,
                0,
                1,
            ));
            assert(soil_to_fertilizer.ranges@ + spec_section_acc(lss, 0, 0, 2)
                =~= spec_section_acc(lss, 0, 0, 2));
            assert(fertilizer_to_water.ranges@ + spec_section_acc(lss, 0, 0, 3)
                =~= spec_section_acc(lss, 0, 0, 3));
            assert(water_to_light.ranges@ + spec_section_acc(lss, 0, 0, 4) =~= spec_section_acc(
                lss,
                0,
                0,
                4,
            ));
            assert(light_to_temperature.ranges@ + spec_section_acc(lss, 0, 0, 5)
                =~= spec_section_acc(lss, 0, 0, 5));
            assert(temperature_to_humidity.ranges@ + spec_section_acc(lss, 0, 0, 6)
                =~= spec_section_acc(lss, 0, 0, 6));
            assert(humidity_to_location.ranges@ + spec_section_acc(lss, 0, 0, 7)
                =~= spec_section_acc(lss, 0, 0, 7));
        }
        while i < ls.len()
            invariant
                i <= ls@.len(),
                step <= 7,
                i == 0 ==> step == 0 && seeds@ == Seq::<u64>::empty(),
                i > 0 ==> seeds@ == spec_seeds_of(lss),
                spec_section_of(input@, 1) == seeds_to_soil.ranges@ + spec_section_acc(
                    lss,
                    i as int,
                    step as int,
                    1,
                ),
                spec_section_of(input@, 2) == soil_to_fertilizer.ranges@ + spec_section_acc(
                    lss,
                    i as int,
                    step as int,
                    2,
                ),
                spec_section_of(input@, 3) == fertilizer_to_water.ranges@ + spec_section_acc(
                    lss,
                    i as int,
                    step as int,
                    3,
                ),
                spec_section_of(input@, 4) == water_to_light.ranges@ + spec_section_acc(
                    lss,
                    i as int,
                    step as int,
                    4,
                ),
                spec_section_of(input@, 5) == light_to_temperature.ranges@ + spec_section_acc(
                    lss,
                    i as int,
                    step as int,
                    5,
                ),
                spec_section_of(input@, 6) == temperature_to_humidity.ranges@ + spec_section_acc(
                    lss,
                    i as int,
                    step as int,
                    6,
                ),
                spec_section_of(input@, 7) == humidity_to_location.ranges@ + spec_section_acc(
                    lss,
                    i as int,
                    step as int,
                    7,
                ),
            decreases ls@.len() - i,
        {
            let line = trim(&ls[i]);
            proof {
                assert(line@ == spec_trim(lss[i as int]));
            }
            if line.len() == 0 {
                i = i + 1;
                continue;
            }
            if i == 0 {
                // "seeds: 79 14 55 13"
                let halves = crate::text::split_char(&line, ':');
                if halves.len() >= 2 {
                    let tokens = split_ws(&halves[1]);
                    let ghost tss = spec_split_ws(spec_split_char(line@, ':')[1]);
                    proof {
                        assert(spec_split_char(line@, ':')[1] == halves@[1]@);
                        assert(seeds@ + spec_nums64_of(tss, 0) =~= spec_nums64_of(tss, 0));
                    }
                    let mut k: usize = 0;
                    while k < tokens.len()
                        invariant
                            k <= tokens@.len(),
                            tokens@.len() == tss.len(),
                            forall|j: int| 0 <= j < tokens@.len() ==> tokens@[j]@ == tss[j],
                            spec_nums64_of(tss, 0) == seeds@ + spec_nums64_of(tss, k as int),
                        decreases tokens@.len() - k,
                    {
                        match parse_u64(&tokens[k]) {
                            Some(v) => {
                                let ghost sp = seeds@;
                                seeds.push(v);
                                proof {
                                    assert(sp + (seq![v] + spec_nums64_of(tss, k + 1)) =~= seeds@
                                        + spec_nums64_of(tss, k + 1));
                                }
                            },
                            None => {},
                        }
                        k = k + 1;
                    }
                    proof {
                        assert(seeds@ + Seq::<u64>::empty() =~= seeds@);
                    }
                }
                i = i + 1;
                continue;
            }
            if line_is(&line, &h1) {
                step = 1;
            } else if line_is(&line, &h2) {
                step = 2;
            } else if line_is(&line, &h3) {
                step = 3;
            } else if line_is(&line, &h4) {
                step = 4;
            } else if line_is(&line, &h5) {
                step = 5;
            } else if line_is(&line, &h6) {
                step = 6;
            } else if line_is(&line, &h7) {
                step = 7;
            } else {
                proof {
                    assert(spec_header_step(line@) is None);
                }
                let range = Range::from_chars(&line);
                if step == 1 {
                    let ghost dp = seeds_to_soil.ranges@;
                    seeds_to_soil.ranges.push(range);
                    proof {
                        assert(dp + (seq![spec_range_of(line@)] + spec_section_acc(
                            lss,
                            i + 1,
                            step as int,
                            1,
                        )) =~= seeds_to_soil.ranges@ + spec_section_acc(
                            lss,
                            i + 1,
                            step as int,
                            1,
                        ));
                    }
                } else if step == 2 {
                    let ghost dp = soil_to_fertilizer.ranges@;
                    soil_to_fertilizer.ranges.push(range);
                    proof {
                        assert(dp + (seq![spec_range_of(line@)] + spec_section_acc(
                            lss,
                            i + 1,
                            step as int,
                            2,
                        )) =~= soil_to_fertilizer.ranges@ + spec_section_acc(
                            lss,
                            i + 1,
                            step as int,
                            2,
                        ));
                    }
                } else if step == 3 {
                    let ghost dp = fertilizer_to_water.ranges@;
                    fertilizer_to_water.ranges.push(range);
                    proof {
                        assert(dp + (seq![spec_range_of(line@)] + spec_section_acc(
                            lss,
                            i + 1,
                            step as int,
                            3,
                        )) =~= fertilizer_to_water.ranges@ + spec_section_acc(
                            lss,
                            i + 1,
                            step as int,
                            3,
                        ));
                    }
                } else if step == 4 {
                    let ghost dp = water_to_light.ranges@;
                    water_to_light.ranges.push(range);
                    proof {
                        assert(dp + (seq![spec_range_of(line@)] + spec_section_acc(
                            lss,
                            i + 1,
                            step as int,
                            4,
                        )) =~= water_to_light.ranges@ + spec_section_acc(
                            lss,
                            i + 1,
                            step as int,
                            4,
                        ));
                    }
                } else if step == 5 {
                    let ghost dp = light_to_temperature.ranges@;
                    light_to_temperature.ranges.push(range);
                    proof {
                        assert(dp + (seq![spec_range_of(line@)] + spec_section_acc(
                            lss,
                            i + 1,
                            step as int,
                            5,
                        )) =~= light_to_temperature.ranges@ + spec_section_acc(
                            lss,
                            i + 1,
                            step as int,
                            5,
                        ));
                    }
                } else if step == 6 {
                    let ghost dp = temperature_to_humidity.ranges@;
                    temperature_to_humidity.ranges.push(range);
                    proof {
                        assert(dp + (seq![spec_range_of(line@)] + spec_section_acc(
                            lss,
                            i + 1,
                            step as int,
                            6,
                        )) =~= temperature_to_humidity.ranges@ + spec_section_acc(
                            lss,
                            i + 1,
                            step as int,
                            6,
                        ));
                    }
                } else if step == 7 {
                    let ghost dp = humidity_to_location.ranges@;
                    humidity_to_location.ranges.push(range);
                    proof {
                        assert(dp + (seq![spec_range_of(line@)] + spec_section_acc(
                            lss,
                            i + 1,
                            step as int,
                            7,
                        )) =~= humidity_to_location.ranges@ + spec_section_acc(
                            lss,
                            i + 1,
                            step as int,
                            7,
                        ));
                    }
                }
            }
            i = i + 1;
        }
        proof {
            assert(seeds_to_soil.ranges@ + Seq::<Range>::empty() =~= seeds_to_soil.ranges@);
            assert(soil_to_fertilizer.ranges@ + Seq::<Range>::empty()
                =~= soil_to_fertilizer.ranges@);
            assert(fertilizer_to_water.ranges@ + Seq::<Range>::empty()
                =~= fertilizer_to_water.ranges@);
            assert(water_to_light.ranges@ + Seq::<Range>::empty() =~= water_to_light.ranges@);
            assert(light_to_temperature.ranges@ + Seq::<Range>::empty()
                =~= light_to_temperature.ranges@);
            assert(temperature_to_humidity.ranges@ + Seq::<Range>::empty()
                =~= temperature_to_humidity.ranges@);
            assert(humidity_to_location.ranges@ + Seq::<Range>::empty()
                =~= humidity_to_location.ranges@);
            if lss.len() == 0 {
                assert(seeds@ == spec_seeds_of(lss));
            }
        }
        Almanac {
            seeds,
            seeds_to_soil,
            soil_to_fertilizer,
            fertilizer_to_water,
            water_to_light,
            light_to_temperature,
            temperature_to_humidity,
            humidity_to_location,
        }
    }

    /// Carries a seed through all seven maps to its location.
    pub fn find_location_for_seed(&self, seed: u64) -> (r: u64)
        ensures
            r == spec_find_dest(
                self.humidity_to_location.ranges@,
                spec_find_dest(
                    self.temperature_to_humidity.ranges@,
                    spec_find_dest(
                        self.light_to_temperature.ranges@,
                        spec_find_dest(
                            self.water_to_light.ranges@,
                            spec_find_dest(
                                self.fertilizer_to_water.ranges@,
                                spec_find_dest(
                                    self.soil_to_fertilizer.ranges@,
                                    spec_find_dest(self.seeds_to_soil.ranges@, seed, 0),
                                    0,
                                ),
                                0,
                            ),
                            0,
                        ),
                        0,
                    ),
                    0,
                ),
                0,
            ),
    {
        let soil = self.seeds_to_soil.find_destination(seed);
        let fertilizer = self.soil_to_fertilizer.find_destination(soil);
        let water = self.fertilizer_to_water.find_destination(fertilizer);
        let light = self.water_to_light.find_destination(water);
        let temperature = self.light_to_temperature.find_destination(light);
        let humidity = self.temperature_to_humidity.find_destination(temperature);
        self.humidity_to_location.find_destination(humidity)
    }
}

fn line_is(a: &Vec<char>, b: &Vec<char>) -> (r: bool)
    ensures
        r == (a@ == b@),
{
    if a.len() != b.len() {
        return false;
    }
    let mut i: usize = 0;
    while i < a.len()
        invariant
            i <= a@.len(),
            a@.len() == b@.len(),
            forall|k: int| 0 <= k < i ==> a@[k] == b@[k],
        decreases a@.len() - i,
    {
        if a[i] != b[i] {
            return false;
        }
        i = i + 1;
    }
    proof {
        assert(a@ =~= b@);
    }
    true
}

/// Reads one map line into its range.
pub fn generate_ranges(line: &str) -> (r: Range)
    ensures
        r == spec_range_of(spec_trim(line@)),
{
    Range::new(line)
}

/// The location a seed of the almanac text reaches: through all seven maps.
pub open spec fn spec_seed_location(s: Seq<char>, seed: u64) -> u64 {
    spec_find_dest(
        spec_section_of(s, 7),
        spec_find_dest(
            spec_section_of(s, 6),
            spec_find_dest(
                spec_section_of(s, 5),
                spec_find_dest(
                    spec_section_of(s, 4),
                    spec_find_dest(
                        spec_section_of(s, 3),
                        spec_find_dest(
                            spec_section_of(s, 2),
                            spec_find_dest(spec_section_of(s, 1), seed, 0),
                            0,
                        ),
                        0,
                    ),
                    0,
                ),
                0,
            ),
            0,
        ),
        0,
    )
}

/// The running minimum over the seeds' locations from index `i` on.
pub open spec fn spec_lowest_acc(
    s: Seq<char>,
    seeds: Seq<u64>,
    i: int,
    best: u64,
    have: bool,
) -> u64
    decreases seeds.len() - i,
{
    if i >= seeds.len() {
        best
    } else {
        let loc = spec_seed_location(s, seeds[i]);
        if !have || loc < best {
            spec_lowest_acc(s, seeds, i + 1, loc, true)
        } else {
            spec_lowest_acc(s, seeds, i + 1, best, have)
        }
    }
}

/// The smallest location any listed seed reaches; zero without seeds.
#[verifier::loop_isolation(false)]
pub fn lowest_location_number(input: &str) -> (r: u64)
    ensures
        r == spec_lowest_acc(input@, spec_seeds_of(spec_lines(input@)), 0, 0u64, false),
{
    let almanac = Almanac::new(input);
    let ghost seedss = spec_seeds_of(spec_lines(input@));
    let mut best: u64 = 0;
    let mut have = false;
    let mut i: usize = 0;
    while i < almanac.seeds.len()
        invariant
            i <= almanac.seeds@.len(),
            almanac.seeds@ == seedss,
            spec_lowest_acc(input@, seedss, 0, 0u64, false) == spec_lowest_acc(
                input@,
                seedss,
                i as int,
                best,
                have,
            ),
        decreases almanac.seeds@.len() - i,
    {
        let loc = almanac.find_location_for_seed(almanac.seeds[i]);
        proof {
            assert(loc == spec_seed_location(input@, seedss[i as int]));
        }
        if !have || loc < best {
            best = loc;
            have = true;
        }
        i = i + 1;
    }
    best
}

/// Reads the seed list as `(start, length)` pairs and returns the smallest
/// location any covered seed reaches; zero without a full pair.
pub fn lowest_location_over_ranges(input: &str) -> (r: u64)
{
    let almanac = Almanac::new(input);
    let n = almanac.seeds.len();
    if n < 2 {
        return 0;
    }
    let mut best: u64 = 0;
    let mut have = false;
    let mut i: usize = 0;
    while i < n - 1
        invariant
            n == almanac.seeds@.len(),
            n >= 2,
            i <= n,
        decreases n - i,
    {
        let start = almanac.seeds[i];
        let len = almanac.seeds[i + 1];
        if len > 0 {
            let end = if len - 1 > u64::MAX - start {
                u64::MAX
            } else {
                start + (len - 1)
            };
            let mut seed = start;
            loop
                invariant
                    start <= seed <= end,
                    n == almanac.seeds@.len(),
                decreases end - seed,
            {
                let loc = almanac.find_location_for_seed(seed);
                if !have || loc < best {
                    best = loc;
                    have = true;
                }
                if seed == end {
                    break;
                }
                seed = seed + 1;
            }
        }
        i = i + 2;
    }
    best
}

} // verus!
