use solvers::long_races;
use solvers::races;

#[test]
fn test_sum_race_results() {
    let input = "Time:      7  15   30
        Distance:  9  40  200";

    assert_eq!(races::sum_race_results(input), 288);
}

#[test]
fn mod_test_sum_race_results() {
    let input = "Time:      7  15   30
        Distance:  9  40  200";

    assert_eq!(long_races::sum_race_results(input), 288);
}

#[test]
fn test_sum_race_results_task2() {
    let input = "Time:      7  15   30
        Distance:  9  40  200";

    assert_eq!(long_races::sum_race_results_task2(input), 71503);
}

#[test]
fn test_single_race_counts() {
    let race = races::Race::new(7, 9);
    assert_eq!(race.count_winning_possibilities(), 4);
    let boat = races::Boat::new(3);
    assert_eq!(boat.get_distance(7), 12);
}
