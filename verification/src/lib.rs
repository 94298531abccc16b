//! The rules engine of a tile-drafting board game for one to four players:
//! a supply of tiles, displays to draft from, a board for each player, and
//! the calls that move a game from its first deal to its final scores.

pub mod bag;
pub mod display;
pub mod floor;
pub mod game;
pub mod lines;
pub mod model;
pub mod player;
pub mod render;
pub mod snapshot;
pub mod tally;
pub mod tile;
pub mod wall;

pub use bag::Bag;
pub use display::{Center, Factory};
pub use floor::FloorLine;
pub use game::{new_game, Game};
pub use lines::PatternLines;
pub use model::Phase;
pub use player::Player;
pub use snapshot::{BoardSnapshot, Snapshot};
pub use tile::{GameError, PlayerColor, Tile};
pub use wall::Wall;
