use solvers::almanac::{generate_ranges, lowest_location_number, Range};
use solvers::calibration::{convert_string_to_numbers, sum_calibration};
use solvers::camel_cards::{sum_total_winnings, sum_total_winnings_2};
use solvers::cube_games::{sum_possible_game_ids, sum_power_minimum_gameset};
use solvers::histories::get_next_history_values;
use solvers::lenses::hash_string;
use solvers::network::{count_ghosts_steps, count_steps};
use solvers::schematic::{find_type, sum_engine_parts, sum_gear_ratio, SchematicDotType};
use solvers::scratchcards::{count_final_cards, sum_winning_cards_points};

#[test]
fn test_find_type() {
    assert_eq!(find_type('.'), SchematicDotType::Blank);
    assert_eq!(find_type('0'), SchematicDotType::Number);
    assert_eq!(find_type('*'), SchematicDotType::Symbol);
}

#[test]
fn test_sum_engine_parts() {
    let input = "467..114..
        ...*......
        ..35..633.
        ......#...
        617*......
        .....+.58.
        ..592.....
        ......755.
        ...$.*....
        .664.598..";

    assert_eq!(sum_engine_parts(input), 4361);
}

#[test]
fn test_sum_gear_ratio() {
    let input = "467..114..
        ...*......
        ..35..633.
        ......#...
        617*......
        .....+.58.
        ..592.....
        ......755.
        ...$.*....
        .664.598..";

    assert_eq!(sum_gear_ratio(input), 467835);
}

#[test]
fn test_solve_task1() {
    let calibration = "1abc2
        pqr3stu8vwx
        a1b2c3d4e5f
        treb7uchet";

    assert_eq!(sum_calibration(calibration), 142);
}

#[test]
fn test_solve_task2() {
    let calibration = "two1nine
        eightwothree
        abcone2threexyz
        xtwone3four
        4nineeightseven2
        zoneight234
        7pqrstsixteen";

    assert_eq!(sum_calibration(&convert_string_to_numbers(calibration)), 281);
}

#[test]
fn test_sum_possible_game_ids() {
    let text = "Game 1: 3 blue, 4 red; 1 red, 2 green, 6 blue; 2 green
        Game 2: 1 blue, 2 green; 3 green, 4 blue, 1 red; 1 green, 1 blue
        Game 3: 8 green, 6 blue, 20 red; 5 blue, 4 red, 13 green; 5 green, 1 red
        Game 4: 1 green, 3 red, 6 blue; 3 green, 6 red; 3 green, 15 blue, 14 red
        Game 5: 6 red, 1 blue, 3 green; 2 blue, 1 red, 2 green";

    assert_eq!(sum_possible_game_ids(text), 8);
}

#[test]
fn test_sum_power_minimum_gameset() {
    let text = "Game 1: 3 blue, 4 red; 1 red, 2 green, 6 blue; 2 green
        Game 2: 1 blue, 2 green; 3 green, 4 blue, 1 red; 1 green, 1 blue
        Game 3: 8 green, 6 blue, 20 red; 5 blue, 4 red, 13 green; 5 green, 1 red
        Game 4: 1 green, 3 red, 6 blue; 3 green, 6 red; 3 green, 15 blue, 14 red
        Game 5: 6 red, 1 blue, 3 green; 2 blue, 1 red, 2 green";

    assert_eq!(sum_power_minimum_gameset(text), 2286);
}

#[test]
fn test_sum_winning_cards_points() {
    let input = "Card 1: 41 48 83 86 17 | 83 86  6 31 17  9 48 53
        Card 2: 13 32 20 16 61 | 61 30 68 82 17 32 24 19
        Card 3:  1 21 53 59 44 | 69 82 63 72 16 21 14  1
        Card 4: 41 92 73 84 69 | 59 84 76 51 58  5 54 83
        Card 5: 87 83 26 28 32 | 88 30 70 12 93 22 82 36
        Card 6: 31 18 13 56 72 | 74 77 10 23 35 67 36 11";

    assert_eq!(sum_winning_cards_points(input), 13);
}

#[test]
fn test_count_final_cards() {
    let input = "Card 1: 41 48 83 86 17 | 83 86  6 31 17  9 48 53
        Card 2: 13 32 20 16 61 | 61 30 68 82 17 32 24 19
        Card 3:  1 21 53 59 44 | 69 82 63 72 16 21 14  1
        Card 4: 41 92 73 84 69 | 59 84 76 51 58  5 54 83
        Card 5: 87 83 26 28 32 | 88 30 70 12 93 22 82 36
        Card 6: 31 18 13 56 72 | 74 77 10 23 35 67 36 11";

    assert_eq!(count_final_cards(input), 30);
}

#[test]
fn test_generate_ranges() {
    let input = "50 98 2";
    let expected = Range { min: 98, max: 99, add: -48 };
    assert_eq!(generate_ranges(input), expected);

    let input: &str = "39 0 15";
    let expected = Range { min: 0, max: 14, add: 39 };
    assert_eq!(generate_ranges(input), expected);
}

#[test]
fn test_lowest_location_number() {
    let input = "seeds: 79 14 55 13

        seed-to-soil map:
        50 98 2
        52 50 48

        soil-to-fertilizer map:
        0 15 37
        37 52 2
        39 0 15

        fertilizer-to-water map:
        49 53 8
        0 11 42
        42 0 7
        57 7 4

        water-to-light map:
        88 18 7
        18 25 70

        light-to-temperature map:
        45 77 23
        81 45 19
        68 64 13

        temperature-to-humidity map:
        0 69 1
        1 0 69

        humidity-to-location map:
        60 56 37
        56 93 4";

    assert_eq!(lowest_location_number(input), 35);
}

#[test]
fn test_sum_total_winnings() {
    let input = "32T3K 765
        T55J5 684
        KK677 28
        KTJJT 220
        QQQJA 483";

    assert_eq!(sum_total_winnings(input), 6440);
}

#[test]
fn test_sum_total_winnings_2() {
    let input = "32T3K 765
        T55J5 684
        KK677 28
        KTJJT 220
        QQQJA 483";

    assert_eq!(sum_total_winnings_2(input), 5905);
}

#[test]
fn test_sum_total_winnings_JJJJJ() {
    let input = "JJJJJ 500
        AAAAK 1000";

    assert_eq!(sum_total_winnings_2(input), 2000);
}

#[test]
fn test_count_steps() {
    let input = "LLR

        AAA = (BBB, BBB)
        BBB = (AAA, ZZZ)
        ZZZ = (ZZZ, ZZZ)";

    assert_eq!(count_steps(input), 6);
}

#[test]
fn test_count_ghosts_steps() {
    let input = "LR

        11A = (11B, XXX)
        11B = (XXX, 11Z)
        11Z = (11B, XXX)
        22A = (22B, XXX)
        22B = (22C, 22C)
        22C = (22Z, 22Z)
        22Z = (22B, 22B)
        XXX = (XXX, XXX)";

    assert_eq!(count_ghosts_steps(input), 6);
}

#[test]
fn test_history() {
    let input = "0 3 6 9 12 15
        1 3 6 10 15 21
        10 13 16 21 30 45";

    assert_eq!(get_next_history_values(input), 114);
}

#[test]
fn test_history_neg() {
    let input = "0 -3 -6 -9 -12 -15";

    assert_eq!(get_next_history_values(input), -18);
}

#[test]
fn test_hash_known_word() {
    assert_eq!(hash_string("HASH"), 52);
    assert_eq!(hash_string("rn"), 0);
    assert_eq!(hash_string("cm"), 0);
    assert_eq!(hash_string("qp"), 1);
}

#[test]
fn mod_test_generate_ranges() {
    let input = "50 98 2";
    let expected = Range { min: 98, max: 99, add: -48 };
    assert_eq!(generate_ranges(input), expected);

    let input: &str = "39 0 15";
    let expected = Range { min: 0, max: 14, add: 39 };
    assert_eq!(generate_ranges(input), expected);
}

#[test]
fn mod_test_lowest_location_number() {
    let input = "seeds: 79 14 55 13

        seed-to-soil map:
        50 98 2
        52 50 48

        soil-to-fertilizer map:
        0 15 37
        37 52 2
        39 0 15

        fertilizer-to-water map:
        49 53 8
        0 11 42
        42 0 7
        57 7 4

        water-to-light map:
        88 18 7
        18 25 70

        light-to-temperature map:
        45 77 23
        81 45 19
        68 64 13

        temperature-to-humidity map:
        0 69 1
        1 0 69

        humidity-to-location map:
        60 56 37
        56 93 4";

    assert_eq!(solvers::almanac::lowest_location_over_ranges(input), 46);
}
