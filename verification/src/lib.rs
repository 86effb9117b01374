pub mod almanac;
pub mod arith;
pub mod calibration;
pub mod camel_cards;
pub mod cube_games;
pub mod galaxies;
pub mod grid;
pub mod histories;
pub mod lenses;
pub mod long_races;
pub mod mirrors;
pub mod network;
pub mod pipes;
pub mod platform;
pub mod races;
pub mod schematic;
pub mod scratchcards;
pub mod search;
pub mod springs;
pub mod text;
pub mod tracer;
