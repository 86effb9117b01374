use solvers::grid::{CellType, Direction, Grid, GridError, Position};
use solvers::grid::BeamState;
use solvers::search::{candidates, fixed_count, max_count, solve};
use solvers::tracer::{trace, Traversal};

const SAMPLE: &str = ".|...\\....
        |.-.\\.....
        .....|-...
        ........|.
        ..........
        .........\\
        ..../.\\\\..
        .-.-/..|..
        .|....-|.\\
        ..//.|....";

#[test]
fn reference_scenario_counts() {
    let (fixed, best) = solve(SAMPLE).unwrap();
    assert_eq!(fixed, 46);
    assert_eq!(best, 51);
}

#[test]
fn fixed_and_max_agree_with_solve() {
    let g = Grid::parse(SAMPLE).unwrap();
    assert_eq!(fixed_count(&g), 46);
    assert_eq!(max_count(&g), 51);
}

#[test]
fn max_never_below_fixed() {
    let (fixed, best) = solve(SAMPLE).unwrap();
    assert!(best >= fixed);
    let (f2, b2) = solve(".\\.\n-|/\n..|").unwrap();
    assert!(b2 >= f2);
}

#[test]
fn tracing_twice_matches() {
    let g = Grid::parse(SAMPLE).unwrap();
    let entry = BeamState { pos: Position { row: 0, col: 0 }, dir: Direction::Right };
    let a = trace(&g, entry);
    let b = trace(&g, entry);
    assert_eq!(a, b);
    assert_eq!(a, 46);
}

#[test]
fn straight_line_on_empty_grid() {
    let g = Grid::parse(".....\n.....\n.....").unwrap();
    let entry = BeamState { pos: Position { row: 1, col: 0 }, dir: Direction::Right };
    assert_eq!(trace(&g, entry), 5);
    let down = BeamState { pos: Position { row: 0, col: 2 }, dir: Direction::Down };
    assert_eq!(trace(&g, down), 3);
}

#[test]
fn splitter_forks_a_crossing_beam() {
    // a rightward beam hits the vertical splitter and covers the column
    let g = Grid::parse("...\n.|.\n...").unwrap();
    let entry = BeamState { pos: Position { row: 1, col: 0 }, dir: Direction::Right };
    // cells: (1,0), (1,1), then (0,1) and (2,1)
    assert_eq!(trace(&g, entry), 4);
}

#[test]
fn mirrors_bend_the_beam() {
    let g = Grid::parse("\\..\n..\\
...").unwrap();
    assert!(g.cell_at(Position { row: 0, col: 0 }) == CellType::BackwardMirror);
    let entry = BeamState { pos: Position { row: 0, col: 0 }, dir: Direction::Right };
    // the backward mirror turns the rightward entry downward immediately
    assert_eq!(trace(&g, entry), 3);
}

#[test]
fn parse_rejects_unknown_characters() {
    assert_eq!(Grid::parse("..x.").unwrap_err(), GridError::ParseError);
}

#[test]
fn parse_rejects_ragged_rows() {
    assert_eq!(Grid::parse("....\n...").unwrap_err(), GridError::RaggedRowError);
}

#[test]
fn parse_rejects_empty_grids() {
    assert_eq!(Grid::parse("").unwrap_err(), GridError::EmptyGridError);
    assert_eq!(Grid::parse("   \n").unwrap_err(), GridError::EmptyGridError);
}

#[test]
fn solve_reports_parse_errors() {
    assert_eq!(solve("..?.").unwrap_err(), GridError::ParseError);
}

#[test]
fn candidates_cover_the_border() {
    let g = Grid::parse("...\n...").unwrap();
    let cands = candidates(&g);
    // 2 rows and 3 columns: two entries per row and per column
    assert_eq!(cands.len(), 2 * 3 + 2 * 2);
    assert!(cands.contains(&BeamState { pos: Position { row: 0, col: 0 }, dir: Direction::Right }));
    assert!(cands.contains(&BeamState { pos: Position { row: 0, col: 0 }, dir: Direction::Down }));
}

#[test]
fn traversal_machine_reaches_the_fixed_point() {
    let g = Grid::parse(SAMPLE).unwrap();
    let entry = BeamState { pos: Position { row: 0, col: 0 }, dir: Direction::Right };
    let mut t = Traversal::new(&g, entry);
    let mut before = t.energized_count;
    while t.frontier.len() > 0 {
        t.step(&g);
        // the energized count never decreases while the frontier drains
        assert!(t.energized_count >= before);
        before = t.energized_count;
    }
    assert_eq!(t.energized_count, 46);
}
