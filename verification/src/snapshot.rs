//! A game written down in plain values, and read back from them.

use vstd::prelude::*;
use crate::bag::{Bag, BagView};
use crate::display::{Center, CenterView, Factory};
use crate::game::{factory_views, player_views, Game};
use crate::lines::{copy_rows, rows_of};
use crate::model::{GameView, Phase};
use crate::player::{board_of, Player, PlayerView};
use crate::tile::{GameError, PlayerColor, Tile};

verus! {

/// A board in plain values.
#[derive(Debug, PartialEq, Eq)]
pub struct BoardSnapshot {
    pub color: PlayerColor,
    pub points: u32,
    pub wall: [[Option<Tile>; 5]; 5],
    pub lines: Vec<Vec<Tile>>,
    pub floor: Vec<Tile>,
}

impl Clone for BoardSnapshot {
    fn clone(&self) -> (copy: Self)
        ensures
            copy@ == self@,
    {
        BoardSnapshot {
            color: self.color,
            points: self.points,
            wall: self.wall,
            lines: copy_rows(&self.lines),
            floor: self.floor.clone(),
        }
    }
}

impl BoardSnapshot {
    /// The board that the values describe.
    pub open spec fn view(&self) -> PlayerView {
        board_of(self.color, self.points, self.wall, self.lines@, self.floor@)
    }
}

/// A game in plain values.
#[derive(Debug, PartialEq, Eq)]
pub struct Snapshot {
    pub bag: Vec<Tile>,
    pub lid: Vec<Tile>,
    pub lid_marker: bool,
    pub seed: u64,
    pub boards: Vec<BoardSnapshot>,
    pub factories: Vec<Vec<Tile>>,
    pub center: Vec<Tile>,
    pub center_marker: bool,
    pub phase: Phase,
    pub current: usize,
    pub first_player: usize,
    pub round: u64,
}

impl Clone for Snapshot {
    fn clone(&self) -> (copy: Self)
        ensures
            copy@ == self@,
    {
        let mut boards: Vec<BoardSnapshot> = Vec::new();
        let mut seat: usize = 0;
        while seat < self.boards.len()
            invariant
                seat <= self.boards@.len(),
                boards@.len() == seat,
                forall|i: int| 0 <= i < seat ==> (#[trigger] boards@[i])@ == self.boards@[i]@,
            decreases self.boards@.len() - seat,
        {
            boards.push(self.boards[seat].clone());
            seat += 1;
        }
        let copy = Snapshot {
            bag: self.bag.clone(),
            lid: self.lid.clone(),
            lid_marker: self.lid_marker,
            seed: self.seed,
            boards,
            factories: copy_rows(&self.factories),
            center: self.center.clone(),
            center_marker: self.center_marker,
            phase: self.phase,
            current: self.current,
            first_player: self.first_player,
            round: self.round,
        };
        proof {
            assert(copy@.players =~= self@.players);
        }
        copy
    }
}

impl Snapshot {
    /// The game that the values describe.
    pub open spec fn view(&self) -> GameView {
        GameView {
            bag: BagView {
                tiles: self.bag@,
                lid: self.lid@,
                lid_marker: self.lid_marker,
                seed: self.seed,
            },
            players: Seq::new(self.boards@.len(), |i: int| self.boards@[i]@),
            factories: rows_of(self.factories@),
            center: CenterView { tiles: self.center@, marker: self.center_marker },
            phase: self.phase,
            current: self.current as nat,
            first_player: self.first_player as nat,
            round: self.round as nat,
        }
    }

    /// Writes a game down.
    pub fn of(game: &Game) -> (snapshot: Snapshot)
        ensures
            snapshot@ == game@,
    {
        let mut boards: Vec<BoardSnapshot> = Vec::new();
        let mut seat: usize = 0;
        while seat < game.player_count()
            invariant
                seat <= game@.players.len(),
                boards@.len() == seat,
                forall|i: int| 0 <= i < seat ==> (#[trigger] boards@[i])@ == game@.players[i],
            decreases game@.players.len() - seat,
        {
            match game.board_view(seat) {
                Some(board) => {
                    let written = BoardSnapshot {
                        color: board.color(),
                        points: board.points(),
                        wall: board.wall().cells(),
                        lines: board.pattern_lines().rows(),
                        floor: board.floor_line().tiles(),
                    };
                    assert(written@ =~= game@.players[seat as int]);
                    boards.push(written);
                },
                None => {
                    // The seat exists.
                    assert(false);
                },
            }
            seat += 1;
        }
        let mut factories: Vec<Vec<Tile>> = Vec::new();
        let mut i: usize = 0;
        while i < game.factory_count()
            invariant
                i <= game@.factories.len(),
                factories@.len() == i,
                forall|j: int| 0 <= j < i ==> (#[trigger] factories@[j])@ == game@.factories[j],
            decreases game@.factories.len() - i,
        {
            match game.factory(i) {
                Some(factory) => {
                    factories.push(factory.tiles());
                },
                None => {
                    // The factory exists.
                    assert(false);
                },
            }
            i += 1;
        }
        let snapshot = Snapshot {
            bag: game.bag().tiles(),
            lid: game.bag().lid(),
            lid_marker: game.bag().lid_has_marker(),
            seed: game.bag().seed(),
            boards,
            factories,
            center: game.center().tiles(),
            center_marker: game.center().has_marker(),
            phase: game.phase(),
            current: game.current_player(),
            first_player: game.first_player(),
            round: game.round(),
        };
        proof {
            assert(snapshot@.players =~= game@.players);
            assert(snapshot@.factories =~= game@.factories);
            assert(snapshot@ =~= game@);
        }
        snapshot
    }

    /// Reads a game back. Values that do not describe a well-formed game
    /// (a tile on a wall cell of another colour, a count of tiles that is
    /// not twenty, a marker in two places or in none) are refused.
    pub fn restore(&self) -> (game: Result<Game, GameError>)
        ensures
            match game {
                Ok(g) => self@.wf() && g@ == self@ && g.wf(),
                Err(e) => !self@.wf() && e == GameError::InternalInconsistency,
            },
    {
        let ghost view = self@;
        let bag = match Bag::from_parts(
            self.bag.clone(),
            self.lid.clone(),
            self.lid_marker,
            self.seed,
        ) {
            Some(bag) => bag,
            None => {
                return Err(GameError::InternalInconsistency);
            },
        };
        let center = match Center::from_tiles(self.center.clone(), self.center_marker) {
            Some(center) => center,
            None => {
                return Err(GameError::InternalInconsistency);
            },
        };
        let mut players: Vec<Player> = Vec::new();
        let mut seat: usize = 0;
        while seat < self.boards.len()
            invariant
                seat <= self.boards@.len(),
                players@.len() == seat,
                view == self@,
                forall|i: int|
                    0 <= i < seat ==> (#[trigger] players@[i])@ == view.players[i]
                        && players@[i].wf(),
            decreases self.boards@.len() - seat,
        {
            let board = &self.boards[seat];
            let made = Player::from_parts(
                board.color,
                board.points,
                board.wall,
                copy_rows(&board.lines),
                board.floor.clone(),
            );
            match made {
                Some(player) => {
                    players.push(player);
                },
                None => {
                    assert(!view.players[seat as int].wf());
                    return Err(GameError::InternalInconsistency);
                },
            }
            seat += 1;
        }
        let mut made: Vec<Factory> = Vec::new();
        let mut i: usize = 0;
        while i < self.factories.len()
            invariant
                i <= self.factories@.len(),
                made@.len() == i,
                view == self@,
                forall|j: int|
                    0 <= j < i ==> (#[trigger] made@[j])@ == view.factories[j] && made@[j].wf(),
            decreases self.factories@.len() - i,
        {
            match Factory::from_tiles(self.factories[i].clone()) {
                Some(factory) => {
                    made.push(factory);
                },
                None => {
                    assert(!crate::display::factory_wf(view.factories[i as int]));
                    return Err(GameError::InternalInconsistency);
                },
            }
            i += 1;
        }
        proof {
            assert(player_views(players@) =~= view.players);
            assert(factory_views(made@) =~= view.factories);
        }
        match Game::from_parts(
            bag,
            players,
            made,
            center,
            self.phase,
            self.current,
            self.first_player,
            self.round,
        ) {
            Some(game) => Ok(game),
            None => Err(GameError::InternalInconsistency),
        }
    }
}

impl Game {
    /// Whether the game is well formed: whether, written down, it can be
    /// read back.
    pub fn is_consistent(&self) -> (b: bool)
        ensures
            b == self.wf(),
    {
        match Snapshot::of(self).restore() {
            Ok(_) => true,
            Err(_) => false,
        }
    }

    /// Writes the game down and reads it back: the game read back is the
    /// game written down, so every call on it does what it would do on
    /// this one.
    pub fn round_trip(&self) -> (copy: Result<Game, GameError>)
        requires
            self.wf(),
        ensures
            copy matches Ok(g) && g@ == self@ && g.wf(),
    {
        Snapshot::of(self).restore()
    }
}

} // verus!
