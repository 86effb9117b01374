use solvers::arith::{gcd, lcm};
use solvers::lenses::{Instruction, LightBox};
use solvers::mirrors::{parse_patterns, Pattern};
use solvers::platform;

#[test]
fn gcd_and_lcm_basics() {
    assert_eq!(gcd(12, 18), 6);
    assert_eq!(gcd(7, 0), 7);
    assert_eq!(gcd(0, 7), 7);
    assert_eq!(lcm(4, 6), 12);
    assert_eq!(lcm(3, 5), 15);
}

#[test]
fn reflection_lines_read_both_ways() {
    let input = "#.##..##.
        ..#.##.#.
        ##......#
        ##......#
        ..#.##.#.
        ..##..##.
        #.#.##.#.";
    let p = Pattern::new(input);
    // the vertical mirror of the published block sits after column five
    assert!(Pattern::is_reflection_line(5, &p.cols));
    assert!(!Pattern::is_reflection_line(4, &p.cols));
    assert!(!Pattern::is_reflection_line(3, &p.rows));
}

#[test]
fn patterns_split_on_blank_lines() {
    let input = "##.\n..#\n\n#..\n#..";
    let ps = parse_patterns(input);
    assert_eq!(ps.len(), 2);
    assert_eq!(ps[0].rows.len(), 2);
    assert_eq!(ps[1].rows.len(), 2);
}

#[test]
fn tilting_north_rolls_rocks_up() {
    let input = "O....#....
        O.OO#....#
        .....##...
        OO.#O....O
        .O.....O#.
        O.#..O.#.#
        ..O..#O..O
        .......O..
        #....###..
        #OO..#....";
    let mut p = platform::Pattern::new(input);
    p.tilt_north();
    assert_eq!(p.sum_weight(), 136);
}

#[test]
fn spin_cycles_keep_weighing() {
    let input = "O....#....
        O.OO#....#
        .....##...
        OO.#O....O
        .O.....O#.
        O.#..O.#.#
        ..O..#O..O
        .......O..
        #....###..
        #OO..#....";
    let mut p = platform::Pattern::new(input);
    p.tilt_cycle();
    p.tilt_cycle();
    p.tilt_cycle();
    assert_eq!(p.sum_weight(), 69);
}

#[test]
fn instructions_split_at_their_operation() {
    let i = Instruction::new("rn=1").unwrap();
    assert_eq!(i.operation, '=');
    assert_eq!(i.box_number, 0);
    assert_eq!(i.lens, Some(1));
    let j = Instruction::new("cm-").unwrap();
    assert_eq!(j.operation, '-');
    assert_eq!(j.lens, None);
    assert!(Instruction::new("nodash").is_none());
}

#[test]
fn light_boxes_replace_and_remove() {
    let mut b = LightBox::new();
    b.add_lens(vec!['r', 'n'], 1);
    b.add_lens(vec!['c', 'm'], 2);
    // replacing keeps the slot's place
    b.add_lens(vec!['r', 'n'], 9);
    assert_eq!(b.slots.len(), 2);
    assert_eq!(b.slots[0].lens, 9);
    b.remove_lens(vec!['r', 'n']);
    assert_eq!(b.slots.len(), 1);
    assert_eq!(b.slots[0].lens, 2);
    // box 0: 1*1*2 after the removal
    assert_eq!(b.get_focusing_power(0), 2);
    // removing a missing label changes nothing
    b.remove_lens(vec!['x', 'y']);
    assert_eq!(b.slots.len(), 1);
}

#[test]
fn initialization_sequence_totals() {
    let input = "rn=1,cm-,qp=3,cm=2,qp-,pc=4,ot=9,ab=5,pc-,pc=6,ot=7";
    assert_eq!(solvers::lenses::sum_piece_hashes(input), 1320);
    assert_eq!(solvers::lenses::run_initialization(input), 145);
}

#[test]
fn test_part1() {
    let input = "...#......
        .......#..
        #.........
        ..........
        ......#...
        .#........
        .........#
        ..........
        .......#..
        #...#.....";

    println!("{:?}", solvers::galaxies::GalaxyMap::new(input));
}

#[test]
fn galaxy_distances_sum_the_published_chart() {
    let input = "...#......
        .......#..
        #.........
        ..........
        ......#...
        .#........
        .........#
        ..........
        .......#..
        #...#.....";

    assert_eq!(solvers::galaxies::sum_galaxy_distances(input), 374);
}

#[test]
fn spring_rows_brute_force_their_counts() {
    let input = "???.### 1,1,3
        .??..??...?##. 1,1,3
        ?#?#?#?#?#?#?#? 1,3,1,6
        ????.#...#... 4,1,1
        ????.######..#####. 1,6,5
        ?###???????? 3,2,1";
    let map = solvers::springs::SpringMap::new(input);
    assert_eq!(map.count_possibilities(), 21);
    let row = solvers::springs::Row::new("???.### 1,1,3");
    assert_eq!(row.count_possibilities(), 1);
    assert!(row.springs_match_predicates(&vec!['#', '.', '#', '.', '#', '#', '#']));
    assert!(!row.springs_match_predicates(&vec!['#', '#', '#', '.', '#', '#', '#']));
}

#[test]
fn test_loop() {
    let input = ".....
        .S-7.
        .|.|.
        .L-J.
        .....";

    let map = solvers::pipes::PipeMap::new(input);
    assert_eq!(map.entrance, (1, 1));
}

#[test]
fn test_loop2() {
    let input = "..F7.
        .FJ|.
        SJ.L7
        |F--J
        LJ...";

    let map = solvers::pipes::PipeMap::new(input);
    assert_eq!(map.entrance, (0, 2));
}

#[test]
fn farthest_pipe_tile_is_half_the_loop() {
    let input = ".....
        .S-7.
        .|.|.
        .L-J.
        .....";
    let map = solvers::pipes::PipeMap::new(input);
    assert_eq!(map.find_farthest_tile_steps(), 4);

    let input2 = "..F7.
        .FJ|.
        SJ.L7
        |F--J
        LJ...";
    let map2 = solvers::pipes::PipeMap::new(input2);
    assert_eq!(map2.find_farthest_tile_steps(), 8);
}
