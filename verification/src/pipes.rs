//! The pipe maze: tiles connect two directions each, the entrance closes a
//! single loop, and the farthest tile is half the loop away.

use vstd::prelude::*;
use crate::grid::Direction;
use crate::text::{chars_of, split_lines, trim};

verus! {

/// A pipe tile: its glyph and the two directions it connects.
#[derive(Clone, Copy, Debug)]
pub struct PipeTile {
    pub tile: char,
    pub directions: (Direction, Direction),
}

impl PipeTile {
    /// The way out, given the way one came in: the other connected end.
    pub fn get_direction(&self, from: Direction) -> (r: Direction)
        ensures
            r == if from == self.directions.0 {
                self.directions.1
            } else {
                self.directions.0
            },
    {
        if from == self.directions.0 {
            self.directions.1
        } else {
            self.directions.0
        }
    }
}

/// One maze tile: a pipe, the entrance, or nothing of interest.
#[derive(Clone, Copy, Debug)]
pub enum Tile {
    Pipe(PipeTile),
    Entrance,
    Useless,
}

/// The tile a character stands for.
pub open spec fn spec_tile_of(c: char) -> Tile {
    if c == '|' {
        Tile::Pipe(PipeTile { tile: c, directions: (Direction::Up, Direction::Down) })
    } else if c == '-' {
        Tile::Pipe(PipeTile { tile: c, directions: (Direction::Left, Direction::Right) })
    } else if c == 'L' {
        Tile::Pipe(PipeTile { tile: c, directions: (Direction::Up, Direction::Right) })
    } else if c == 'J' {
        Tile::Pipe(PipeTile { tile: c, directions: (Direction::Up, Direction::Left) })
    } else if c == 'F' {
        Tile::Pipe(PipeTile { tile: c, directions: (Direction::Down, Direction::Right) })
    } else if c == '7' {
        Tile::Pipe(PipeTile { tile: c, directions: (Direction::Down, Direction::Left) })
    } else if c == 'S' {
        Tile::Entrance
    } else {
        Tile::Useless
    }
}

impl Tile {
    pub fn from(c: char) -> (r: Tile)
        ensures
            r == spec_tile_of(c),
    {
        if c == '|' {
            Tile::Pipe(PipeTile { tile: c, directions: (Direction::Up, Direction::Down) })
        } else if c == '-' {
            Tile::Pipe(PipeTile { tile: c, directions: (Direction::Left, Direction::Right) })
        } else if c == 'L' {
            Tile::Pipe(PipeTile { tile: c, directions: (Direction::Up, Direction::Right) })
        } else if c == 'J' {
            Tile::Pipe(PipeTile { tile: c, directions: (Direction::Up, Direction::Left) })
        } else if c == 'F' {
            Tile::Pipe(PipeTile { tile: c, directions: (Direction::Down, Direction::Right) })
        } else if c == '7' {
            Tile::Pipe(PipeTile { tile: c, directions: (Direction::Down, Direction::Left) })
        } else if c == 'S' {
            Tile::Entrance
        } else {
            Tile::Useless
        }
    }

    /// The directions a tile opens to: a pipe's two ends, all four for the
    /// entrance, none otherwise.
    pub fn get_directions(&self) -> (r: Vec<Direction>)
        ensures
            self matches Tile::Pipe(p) ==> r@ == seq![p.directions.0, p.directions.1],
            self is Entrance ==> r@ == seq![
                Direction::Up,
                Direction::Down,
                Direction::Left,
                Direction::Right,
            ],
            self is Useless ==> r@.len() == 0,
    {
        let mut r: Vec<Direction> = Vec::new();
        match self {
            Tile::Pipe(pipe) => {
                r.push(pipe.directions.0);
                r.push(pipe.directions.1);
                proof {
                    assert(r@ =~= seq![pipe.directions.0, pipe.directions.1]);
                }
            },
            Tile::Entrance => {
                r.push(Direction::Up);
                r.push(Direction::Down);
                r.push(Direction::Left);
                r.push(Direction::Right);
                proof {
                    assert(r@ =~= seq![
                        Direction::Up,
                        Direction::Down,
                        Direction::Left,
                        Direction::Right,
                    ]);
                }
            },
            Tile::Useless => {},
        }
        r
    }
}

/// One step of the walk: where it came from, where it goes, and which way.
#[derive(Clone, Copy, Debug)]
pub struct TileMove {
    pub from: (usize, usize),
    pub to: (usize, usize),
    pub direction: Direction,
}

/// The maze: its tiles by row, and the entrance as an `(x, y)` pair.
pub struct PipeMap {
    pub tiles: Vec<Vec<Tile>>,
    pub entrance: (usize, usize),
}

impl PipeMap {
    /// Reads the maze; the last `S` wins the entrance, defaulting to the
    /// origin.
    pub fn new(input: &str) -> (r: PipeMap)
    {
        let cs = chars_of(input);
        let ls = split_lines(&cs);
        let mut tiles: Vec<Vec<Tile>> = Vec::new();
        let mut entrance: (usize, usize) = (0, 0);
        let mut y: usize = 0;
        while y < ls.len()
            invariant
                y <= ls@.len(),
            decreases ls@.len() - y,
        {
            let line = trim(&ls[y]);
            let mut row: Vec<Tile> = Vec::new();
            let mut x: usize = 0;
            while x < line.len()
                invariant
                    x <= line@.len(),
                decreases line@.len() - x,
            {
                let tile = Tile::from(line[x]);
                if matches!(tile, Tile::Entrance) {
                    entrance = (x, y);
                }
                row.push(tile);
                x = x + 1;
            }
            tiles.push(row);
            y = y + 1;
        }
        PipeMap { tiles, entrance }
    }

    /// The neighboring position one step in a direction; `None` at the top
    /// and left edges and at the machine's far edge.
    pub open spec fn spec_neighbor_pos(self, direction: Direction, current: (usize, usize)) -> Option<
        (usize, usize),
    > {
        match direction {
            Direction::Up => if current.1 == 0 {
                None
            } else {
                Some((current.0, (current.1 - 1) as usize))
            },
            Direction::Down => if current.1 == usize::MAX {
                None
            } else {
                Some((current.0, (current.1 + 1) as usize))
            },
            Direction::Left => if current.0 == 0 {
                None
            } else {
                Some(((current.0 - 1) as usize, current.1))
            },
            Direction::Right => if current.0 == usize::MAX {
                None
            } else {
                Some(((current.0 + 1) as usize, current.1))
            },
        }
    }

    pub fn get_tile_pos(&self, direction: Direction, current: (usize, usize)) -> (r: Option<
        (usize, usize),
    >)
        ensures
            r == self.spec_neighbor_pos(direction, current),
    {
        match direction {
            Direction::Up => {
                if current.1 == 0 {
                    return None;
                }
                Some((current.0, current.1 - 1))
            },
            Direction::Down => {
                if current.1 == usize::MAX {
                    return None;
                }
                Some((current.0, current.1 + 1))
            },
            Direction::Left => {
                if current.0 == 0 {
                    return None;
                }
                Some((current.0 - 1, current.1))
            },
            Direction::Right => {
                if current.0 == usize::MAX {
                    return None;
                }
                Some((current.0 + 1, current.1))
            },
        }
    }

    /// The tile at a position, as the maze stores it.
    pub open spec fn spec_tile_at(self, position: (usize, usize)) -> Option<Tile> {
        if position.1 < self.tiles@.len() && position.0 < self.tiles@[position.1 as int]@.len() {
            Some(self.tiles@[position.1 as int]@[position.0 as int])
        } else {
            None
        }
    }

    /// The tile one step away, where the maze has one.
    pub fn get_tile(&self, direction: Direction, current: (usize, usize)) -> (r: Option<Tile>)
        ensures
            r == match self.spec_neighbor_pos(direction, current) {
                Some(p) => self.spec_tile_at(p),
                None => None::<Tile>,
            },
    {
        match self.get_tile_pos(direction, current) {
            Some(position) => self.tile_at(position),
            None => None,
        }
    }

    /// The tile at a position, where the maze has one.
    fn tile_at(&self, position: (usize, usize)) -> (r: Option<Tile>)
        ensures
            r == self.spec_tile_at(position),
    {
        let (x, y) = position;
        if y < self.tiles.len() {
            let row = &self.tiles[y];
            if x < row.len() {
                return Some(row[x]);
            }
        }
        None
    }

    /// The next step of the walk: the first direction of the current tile
    /// that leads to a tile of the maze other than the one just left.
    pub fn find_next_tile(&self, current: (usize, usize), previous: (usize, usize)) -> (r: Option<
        TileMove,
    >)
    {
        let tile = match self.tile_at(current) {
            Some(t) => t,
            None => {
                return None;
            },
        };
        let dirs = tile.get_directions();
        let mut k: usize = 0;
        while k < dirs.len()
            invariant
                k <= dirs@.len(),
            decreases dirs@.len() - k,
        {
            let d = dirs[k];
            match self.get_tile_pos(d, current) {
                Some(pos) => {
                    match self.tile_at(pos) {
                        Some(Tile::Useless) => {},
                        Some(_) => {
                            if !(previous.0 == pos.0 && previous.1 == pos.1) {
                                return Some(TileMove { from: current, to: pos, direction: d });
                            }
                        },
                        None => {},
                    }
                },
                None => {},
            }
            k = k + 1;
        }
        None
    }

    /// Walks the loop from the entrance and collects the positions passed,
    /// the entrance excluded; a walk that does not close within the maze's
    /// tile budget reports an empty loop.
    pub fn proceed(&self) -> (r: Vec<(usize, usize)>)
    {
        let mut pipe: Vec<(usize, usize)> = Vec::new();
        let mut current = self.entrance;
        let mut previous = self.entrance;
        // every closed loop fits within one step per tile
        let mut fuel: usize = 0;
        let mut y: usize = 0;
        while y < self.tiles.len()
            invariant
                y <= self.tiles@.len(),
            decreases self.tiles@.len() - y,
        {
            let w = self.tiles[y].len();
            if w > usize::MAX - fuel {
                fuel = usize::MAX;
            } else {
                fuel = fuel + w;
            }
            y = y + 1;
        }
        while fuel > 0
            decreases fuel,
        {
            fuel = fuel - 1;
            let tile_move = match self.find_next_tile(current, previous) {
                Some(m) => m,
                None => {
                    return Vec::new();
                },
            };
            if tile_move.to.0 == self.entrance.0 && tile_move.to.1 == self.entrance.1 {
                return pipe;
            }
            previous = current;
            current = tile_move.to;
            pipe.push(current);
        }
        Vec::new()
    }

    /// The farthest loop tile from the entrance, walking either way: the
    /// largest of the shorter distances around.
    pub fn find_farthest_tile_steps(&self) -> (r: usize)
    {
        let pipe = self.proceed();
        let n = pipe.len();
        let mut steps: usize = 0;
        let mut i: usize = 0;
        while i < n
            invariant
                i < n || i == 0 || i == n,
                n == pipe@.len(),
            decreases n - i,
        {
            let forward = i + 1;
            let backward = n - i;
            let value = if forward < backward {
                forward
            } else {
                backward
            };
            if value > steps {
                steps = value;
            }
            i = i + 1;
        }
        steps
    }
}

} // verus!
