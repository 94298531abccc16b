//! The game: the supply, the displays and the boards, and the calls by
//! which a driver moves it from one state to the next.

use vstd::prelude::*;
use crate::bag::{Bag, BagView};
use crate::display::{factory_wf, Center, CenterView, Factory};
use crate::model::{
    board_count_below, boards_discards, dealt_len, dealt_tiles, factory_count, full_row_below,
    is_draw, leads, leads_all, lemma_draft_wf, lemma_draw, lemma_marker_moves, lemma_round_over,
    lemma_tiled_wf, marker_token, next_round, target, GameView, Phase,
};
use crate::player::{lemma_fresh, Player, PlayerView};
use crate::tally::{
    append_from, count, count_all, lemma_count_all_of_empties, lemma_count_all_update,
    lemma_count_empty,
};
use crate::tile::{GameError, PlayerColor, Tile};
use crate::wall::full_rows;

verus! {

/// The number of factories for one, two, three and four players.
pub const FACTORY_COUNT: [u32; 4] = [3, 5, 7, 9];

/// The tiles of each factory.
pub open spec fn factory_views(factories: Seq<Factory>) -> Seq<Seq<Tile>> {
    Seq::new(factories.len(), |i: int| factories[i]@)
}

/// What each board holds.
pub open spec fn player_views(players: Seq<Player>) -> Seq<PlayerView> {
    Seq::new(players.len(), |i: int| players[i]@)
}

/// Fresh boards hold no tile.
proof fn lemma_fresh_boards(boards: Seq<PlayerView>, t: Tile, upto: int)
    requires
        0 <= upto <= boards.len(),
        forall|i: int|
            0 <= i < boards.len() ==> #[trigger] boards[i] == PlayerView::fresh(
                PlayerColor::of_seat(i),
            ),
    ensures
        board_count_below(boards, t, upto) == 0,
    decreases upto,
{
    if upto > 0 {
        lemma_fresh_boards(boards, t, upto - 1);
        lemma_fresh(PlayerColor::of_seat(upto - 1), t);
    }
}

/// Fills each factory in turn with four tiles from the supply, or with as
/// many as are left.
fn fill_factories(factories: &mut Vec<Factory>, bag: &mut Bag)
    requires
        old(bag).wf(),
        forall|i: int|
            0 <= i < old(factories)@.len() ==> (#[trigger] old(factories)@[i])@.len() == 0,
    ensures
        final(factories)@.len() == old(factories)@.len(),
        final(bag).wf(),
        final(bag)@.lid_marker == old(bag)@.lid_marker,
        forall|i: int|
            0 <= i < final(factories)@.len() ==> factory_wf((#[trigger] final(factories)@[i])@)
                && final(factories)@[i]@.len() == dealt_len(old(bag)@.available(), i),
        forall|t: Tile|
            final(bag)@.count(t) + count_all(factory_views(final(factories)@), t)
                == old(bag)@.count(t),
        old(bag)@.tiles.len() >= 4 * old(factories)@.len() ==> {
            &&& final(bag)@ == old(bag)@.drawn_from_top((4 * old(factories)@.len()) as nat)
            &&& forall|i: int|
                0 <= i < final(factories)@.len() ==> (#[trigger] final(factories)@[i])@
                    == dealt_tiles(old(bag)@.tiles, i)
        },
{
    let ghost available = bag@.available();
    let ghost start = bag@;
    let mut i: usize = 0;
    proof {
        assert forall|t: Tile|
            bag@.count(t) + count_all(factory_views(factories@), t) == start.count(t) by {
            lemma_count_all_of_empties(factory_views(factories@), t);
        }
        assert(bag@ =~= start.drawn_from_top(0));
    }
    while i < factories.len()
        invariant
            i <= factories@.len(),
            factories@.len() == old(factories)@.len(),
            bag.wf(),
            bag@.lid_marker == start.lid_marker,
            bag@.available() == if available >= 4 * i {
                available - 4 * i
            } else {
                0
            },
            forall|j: int|
                0 <= j < i ==> factory_wf((#[trigger] factories@[j])@) && factories@[j]@.len()
                    == dealt_len(available, j),
            forall|j: int| i <= j < factories@.len() ==> (#[trigger] factories@[j])@.len() == 0,
            forall|t: Tile|
                bag@.count(t) + count_all(factory_views(factories@), t) == start.count(t),
            start.tiles.len() >= 4 * factories@.len() ==> {
                &&& bag@ == start.drawn_from_top((4 * i) as nat)
                &&& forall|j: int|
                    0 <= j < i ==> (#[trigger] factories@[j])@ == dealt_tiles(start.tiles, j)
            },
        decreases factories@.len() - i,
    {
        let ghost before = factory_views(factories@);
        let ghost bag_before = bag@;
        match factories[i].fill(bag) {
            Ok(_) => {},
            Err(_) => {
                // The factory is empty, so it is filled.
                assert(false);
            },
        }
        proof {
            let after = factory_views(factories@);
            assert(after =~= before.update(i as int, factories@[i as int]@));
            assert(before[i as int] =~= Seq::<Tile>::empty());
            assert forall|t: Tile|
                bag@.count(t) + count_all(after, t) == start.count(t) by {
                lemma_count_all_update(before, i as int, factories@[i as int]@, t);
                lemma_count_empty(t);
                assert(bag_before.count(t) + count_all(before, t) == start.count(t));
            }
            if start.tiles.len() >= 4 * factories@.len() {
                assert(bag@ =~= start.drawn_from_top((4 * (i + 1)) as nat));
                assert(factories@[i as int]@ =~= dealt_tiles(start.tiles, i as int));
            }
        }
        i += 1;
    }
}

/// Lays out a game for `players` players and deals its first round.
pub fn new_game(players: u32, seed: u64) -> (game: Result<Game, GameError>)
    ensures
        match game {
            Ok(g) => {
                &&& 1 <= players <= 4
                &&& g.wf()
                &&& g@.phase == Phase::Drafting
                &&& g@.round == 1
                &&& g@.current == 0
                &&& g@.first_player == 0
                &&& g@.players == Seq::new(
                    players as nat,
                    |i: int| PlayerView::fresh(PlayerColor::of_seat(i)),
                )
                &&& g@.center == (CenterView { tiles: Seq::empty(), marker: true })
                &&& g@.factories.len() == factory_count(players as int)
                &&& forall|i: int|
                    0 <= i < g@.factories.len() ==> (#[trigger] g@.factories[i]).len() == 4
                &&& g@.bag.tiles.len() == 100 - 4 * factory_count(players as int)
                &&& g@.bag.lid.len() == 0
            },
            Err(e) => !(1 <= players <= 4) && e == GameError::InvalidPlayerCount,
        },
{
    let mut game = match Game::new(players, seed) {
        Ok(game) => game,
        Err(e) => {
            return Err(e);
        },
    };
    match game.deal() {
        Ok(_) => {},
        Err(_) => {
            // A game that was just laid out can be dealt.
            assert(false);
        },
    }
    Ok(game)
}

/// A game: the one owner of the supply, the displays and the boards.
#[derive(Debug)]
pub struct Game {
    bag: Bag,
    players: Vec<Player>,
    factories: Vec<Factory>,
    center: Center,
    phase: Phase,
    current: usize,
    first_player: usize,
    round: u64,
}

impl Clone for Game {
    fn clone(&self) -> (copy: Self)
        ensures
            copy@ == self@,
    {
        let mut players: Vec<Player> = Vec::new();
        let mut seat: usize = 0;
        while seat < self.players.len()
            invariant
                seat <= self.players@.len(),
                players@.len() == seat,
                forall|i: int| 0 <= i < seat ==> (#[trigger] players@[i])@ == self.players@[i]@,
            decreases self.players@.len() - seat,
        {
            players.push(self.players[seat].clone());
            seat += 1;
        }
        let mut factories: Vec<Factory> = Vec::new();
        let mut i: usize = 0;
        while i < self.factories.len()
            invariant
                i <= self.factories@.len(),
                factories@.len() == i,
                forall|j: int| 0 <= j < i ==> (#[trigger] factories@[j])@ == self.factories@[j]@,
            decreases self.factories@.len() - i,
        {
            factories.push(self.factories[i].clone());
            i += 1;
        }
        let copy = Game {
            bag: self.bag.clone(),
            players,
            factories,
            center: self.center.clone(),
            phase: self.phase,
            current: self.current,
            first_player: self.first_player,
            round: self.round,
        };
        proof {
            assert(copy@.players =~= self@.players);
            assert(copy@.factories =~= self@.factories);
        }
        copy
    }
}

impl Game {
    pub closed spec fn view(&self) -> GameView {
        GameView {
            bag: self.bag@,
            players: player_views(self.players@),
            factories: factory_views(self.factories@),
            center: self.center@,
            phase: self.phase,
            current: self.current as nat,
            first_player: self.first_player as nat,
            round: self.round as nat,
        }
    }

    pub open spec fn wf(&self) -> bool {
        self@.wf()
    }

    /// The game that holds the given parts, if they make up a well-formed
    /// game.
    pub(crate) fn from_parts(
        bag: Bag,
        players: Vec<Player>,
        factories: Vec<Factory>,
        center: Center,
        phase: Phase,
        current: usize,
        first_player: usize,
        round: u64,
    ) -> (game: Option<Game>)
        requires
            bag.wf(),
            center.wf(),
            forall|i: int| 0 <= i < players@.len() ==> (#[trigger] players@[i]).wf(),
            forall|i: int| 0 <= i < factories@.len() ==> (#[trigger] factories@[i]).wf(),
        ensures
            game is Some <==> (GameView {
                bag: bag@,
                players: player_views(players@),
                factories: factory_views(factories@),
                center: center@,
                phase,
                current: current as nat,
                first_player: first_player as nat,
                round: round as nat,
            }).wf(),
            game matches Some(g) ==> g@ == (GameView {
                bag: bag@,
                players: player_views(players@),
                factories: factory_views(factories@),
                center: center@,
                phase,
                current: current as nat,
                first_player: first_player as nat,
                round: round as nat,
            }),
    {
        let game = Game { bag, players, factories, center, phase, current, first_player, round };
        if game.is_wf() {
            Some(game)
        } else {
            None
        }
    }

    /// Whether the seats have their colours in order.
    fn seats_in_order(&self) -> (b: bool)
        ensures
            b == forall|i: int|
                0 <= i < self@.players.len() ==> (#[trigger] self@.players[i]).color
                    == PlayerColor::of_seat(i),
    {
        let mut seat: usize = 0;
        while seat < self.players.len()
            invariant
                seat <= self.players@.len(),
                forall|i: int|
                    0 <= i < seat ==> (#[trigger] self@.players[i]).color == PlayerColor::of_seat(
                        i,
                    ),
            decreases self.players@.len() - seat,
        {
            let color = self.players[seat].color();
            let wanted = if seat < 4 {
                color.seat() == seat
            } else {
                color.seat() == 3
            };
            if !wanted {
                assert(self@.players[seat as int].color != PlayerColor::of_seat(seat as int));
                return false;
            }
            seat += 1;
        }
        true
    }

    /// Whether no display holds a tile.
    fn displays_empty(&self) -> (b: bool)
        ensures
            b == self@.displays_empty(),
    {
        if self.center.len() > 0 {
            return false;
        }
        let mut i: usize = 0;
        while i < self.factories.len()
            invariant
                i <= self.factories@.len(),
                self@.center.tiles.len() == 0,
                forall|j: int| 0 <= j < i ==> (#[trigger] self@.factories[j]).len() == 0,
            decreases self.factories@.len() - i,
        {
            if !self.factories[i].is_empty() {
                assert(self@.factories[i as int].len() > 0);
                return false;
            }
            i += 1;
        }
        true
    }

    /// Whether the game holds twenty tiles of `color`.
    fn holds_twenty(&self, color: Tile) -> (b: bool)
        requires
            forall|i: int| 0 <= i < self@.players.len() ==> (#[trigger] self@.players[i]).wf(),
        ensures
            b == (self@.count(color) == 20),
    {
        let ghost view = self@;
        let in_bag = self.bag.count(color);
        let in_lid = self.bag.lid_count(color);
        let in_center = self.center.count(color);
        if in_bag > 20 || in_lid > 20 || in_center > 20 {
            return false;
        }
        let mut total: usize = in_bag + in_lid + in_center;
        if total > 20 {
            return false;
        }
        let ghost base = total as nat;
        let mut i: usize = 0;
        proof {
            assert(view.factories.take(0) =~= Seq::<Seq<Tile>>::empty());
        }
        while i < self.factories.len()
            invariant
                i <= self.factories@.len(),
                view == self@,
                base == view.bag.count(color) + count(view.center.tiles, color),
                total == base + count_all(view.factories.take(i as int), color),
                total <= 20,
            decreases self.factories@.len() - i,
        {
            let held = self.factories[i].count(color);
            proof {
                assert(view.factories.take(i + 1) =~= view.factories.take(i as int).push(
                    view.factories[i as int],
                ));
                crate::tally::lemma_count_all_push(
                    view.factories.take(i as int),
                    view.factories[i as int],
                    color,
                );
                crate::tally::lemma_count_all_prefix(view.factories, i + 1, color);
            }
            if held > 20 || total + held > 20 {
                return false;
            }
            total = total + held;
            i += 1;
        }
        assert(view.factories.take(view.factories.len() as int) =~= view.factories);
        let ghost shown = total as nat;
        let mut seat: usize = 0;
        while seat < self.players.len()
            invariant
                seat <= self.players@.len(),
                view == self@,
                forall|i: int| 0 <= i < view.players.len() ==> (#[trigger] view.players[i]).wf(),
                shown == view.bag.count(color) + count(view.center.tiles, color) + count_all(
                    view.factories,
                    color,
                ),
                total == shown + board_count_below(view.players, color, seat as int),
                total <= 20,
            decreases self.players@.len() - seat,
        {
            assert(view.players[seat as int].wf());
            let held = self.players[seat].count(color);
            proof {
                crate::model::lemma_board_count_prefix(view.players, color, seat + 1);
            }
            if total + held > 20 {
                return false;
            }
            total = total + held;
            seat += 1;
        }
        total == 20
    }

    /// Whether the game is well formed, its parts being so.
    fn is_wf(&self) -> (b: bool)
        requires
            self@.bag.wf(),
            self@.center.wf(),
            forall|i: int| 0 <= i < self@.players.len() ==> (#[trigger] self@.players[i]).wf(),
            forall|i: int|
                0 <= i < self@.factories.len() ==> factory_wf(#[trigger] self@.factories[i]),
        ensures
            b == self.wf(),
    {
        let seats = self.players.len();
        if seats < 1 || seats > 4 {
            return false;
        }
        if self.factories.len() != 2 * seats + 1 {
            return false;
        }
        if !self.seats_in_order() {
            return false;
        }
        if self.current >= seats || self.first_player >= seats {
            return false;
        }
        if self.center.has_marker() == self.bag.lid_has_marker() {
            return false;
        }
        let mut k: usize = 0;
        while k < 5
            invariant
                k <= 5,
                forall|i: int| 0 <= i < self@.players.len() ==> (#[trigger] self@.players[i]).wf(),
                forall|t: Tile| t.is_color() && t.ordinal() < k ==> #[trigger] self@.count(t) == 20,
            decreases 5 - k,
        {
            match Tile::from_index(k) {
                Some(color) => {
                    if !self.holds_twenty(color) {
                        return false;
                    }
                },
                None => {},
            }
            k += 1;
        }
        match self.phase {
            Phase::Drafting => true,
            _ => self.displays_empty(),
        }
    }

    /// Lays out a game for `players` players: a board for each seat, the
    /// factories that this number of players plays with, the marker in the
    /// centre, and a full bag shuffled from `seed`. No tiles are dealt yet.
    /// A game is for one to four players.
    pub fn new(players: u32, seed: u64) -> (game: Result<Game, GameError>)
        ensures
            match game {
                Ok(g) => {
                    &&& 1 <= players <= 4
                    &&& g.wf()
                    &&& g@.phase == Phase::Setup
                    &&& g@.players == Seq::new(
                        players as nat,
                        |i: int| PlayerView::fresh(PlayerColor::of_seat(i)),
                    )
                    &&& g@.factories == Seq::new(
                        factory_count(players as int) as nat,
                        |i: int| Seq::<Tile>::empty(),
                    )
                    &&& g@.center == (CenterView { tiles: Seq::empty(), marker: true })
                    &&& g@.current == 0
                    &&& g@.first_player == 0
                    &&& g@.round == 0
                    &&& g@.bag.tiles.len() == 100
                    &&& g@.bag.lid.len() == 0
                    &&& !g@.bag.lid_marker
                },
                Err(e) => !(1 <= players <= 4) && e == GameError::InvalidPlayerCount,
            },
    {
        if players < 1 || players > 4 {
            return Err(GameError::InvalidPlayerCount);
        }
        let seats: usize = players as usize;
        let mut boards: Vec<Player> = Vec::new();
        let mut seat: usize = 0;
        while seat < seats
            invariant
                seat <= seats <= 4,
                boards@.len() == seat,
                forall|j: int|
                    0 <= j < seat ==> (#[trigger] boards@[j])@ == PlayerView::fresh(
                        PlayerColor::of_seat(j),
                    ),
            decreases seats - seat,
        {
            match PlayerColor::from_seat(seat) {
                Some(color) => {
                    boards.push(Player::new(color));
                },
                None => {
                    // Each of the four seats has a colour.
                    assert(false);
                },
            }
            seat += 1;
        }
        let wanted: usize = FACTORY_COUNT[seats - 1] as usize;
        let mut factories: Vec<Factory> = Vec::new();
        let mut made: usize = 0;
        while made < wanted
            invariant
                made <= wanted,
                factories@.len() == made,
                forall|j: int|
                    0 <= j < made ==> (#[trigger] factories@[j])@ == Seq::<Tile>::empty(),
            decreases wanted - made,
        {
            factories.push(Factory::new());
            made += 1;
        }
        let game = Game {
            bag: Bag::new(seed),
            players: boards,
            factories,
            center: Center::new(),
            phase: Phase::Setup,
            current: 0,
            first_player: 0,
            round: 0,
        };
        proof {
            let view = game@;
            assert(view.players =~= Seq::new(
                players as nat,
                |i: int| PlayerView::fresh(PlayerColor::of_seat(i)),
            ));
            assert(view.factories =~= Seq::new(
                factory_count(players as int) as nat,
                |i: int| Seq::<Tile>::empty(),
            ));
            assert forall|i: int| 0 <= i < view.players.len() implies (
            #[trigger] view.players[i]).wf() && view.players[i].color == PlayerColor::of_seat(
                i,
            ) by {
                lemma_fresh(PlayerColor::of_seat(i), Tile::Blue);
            }
            assert(view.bag.lid =~= Seq::<Tile>::empty());
            assert(view.center.tiles =~= Seq::<Tile>::empty());
            assert forall|t: Tile| t.is_color() implies #[trigger] view.count(t) == 20 by {
                lemma_fresh_boards(view.players, t, view.players.len() as int);
                lemma_count_all_of_empties(view.factories, t);
                lemma_count_empty(t);
                assert(count(view.bag.tiles, t) == 20);
            }
        }
        Ok(game)
    }

    /// Starts a round: the marker returns to the centre, each factory is
    /// filled from the supply, and the player who holds the right to start
    /// is to move. A round can be dealt after the game was laid out and
    /// after a round has ended; at any other time nothing happens.
    pub fn deal(&mut self) -> (dealt: Result<(), GameError>)
        requires
            old(self).wf(),
        ensures
            final(self).wf(),
            match dealt {
                Ok(_) => {
                    &&& old(self)@.phase == Phase::Setup || old(self)@.phase == Phase::RoundEnd
                    &&& final(self)@.phase == Phase::Drafting
                    &&& final(self)@.round == next_round(old(self)@.round)
                    &&& final(self)@.current == old(self)@.first_player
                    &&& final(self)@.first_player == old(self)@.first_player
                    &&& final(self)@.players == old(self)@.players
                    &&& final(self)@.center == (CenterView { tiles: Seq::empty(), marker: true })
                    &&& !final(self)@.bag.lid_marker
                    &&& final(self)@.factories.len() == old(self)@.factories.len()
                    &&& forall|i: int|
                        0 <= i < final(self)@.factories.len() ==> (
                        #[trigger] final(self)@.factories[i]).len() == dealt_len(
                            old(self)@.bag.available(),
                            i,
                        )
                    &&& old(self)@.bag.tiles.len() >= 4 * old(self)@.factories.len() ==> {
                        &&& final(self)@.bag == (BagView {
                            lid_marker: false,
                            ..old(self)@.bag.drawn_from_top(
                                (4 * old(self)@.factories.len()) as nat,
                            )
                        })
                        &&& forall|i: int|
                            0 <= i < final(self)@.factories.len() ==> (
                            #[trigger] final(self)@.factories[i]) == dealt_tiles(
                                old(self)@.bag.tiles,
                                i,
                            )
                    }
                },
                Err(e) => {
                    &&& old(self)@.phase == Phase::Drafting || old(self)@.phase == Phase::GameEnd
                    &&& e == GameError::OutOfTurn
                    &&& final(self)@ == old(self)@
                },
            },
    {
        match self.phase {
            Phase::Setup => {},
            Phase::RoundEnd => {},
            _ => {
                return Err(GameError::OutOfTurn);
            },
        }
        let ghost start = self@;
        if self.bag.take_marker() {
            let token = vec![Tile::FirstPlayer];
            assert(token@ =~= marker_token());
            self.center.receive(token);
        }
        proof {
            lemma_marker_moves(start.center, start.bag);
            assert(start.displays_empty());
            assert(start.center.tiles =~= Seq::<Tile>::empty());
            assert(self.center@ =~= (CenterView { tiles: Seq::empty(), marker: true }));
            assert forall|i: int| 0 <= i < self.factories@.len() implies (
            #[trigger] self.factories@[i])@.len() == 0 by {
                assert(start.factories[i].len() == 0);
            }
        }
        let ghost stocked = self.bag@;
        fill_factories(&mut self.factories, &mut self.bag);
        self.phase = Phase::Drafting;
        self.current = self.first_player;
        self.round = if self.round < u64::MAX {
            self.round + 1
        } else {
            self.round
        };
        proof {
            let after = self@;
            assert(after.players =~= start.players);
            assert forall|i: int| 0 <= i < after.factories.len() implies factory_wf(
                #[trigger] after.factories[i],
            ) && after.factories[i].len() == dealt_len(start.bag.available(), i) by {
                assert(factory_wf(self.factories@[i]@));
            }
            if start.bag.tiles.len() >= 4 * start.factories.len() {
                assert forall|i: int| 0 <= i < after.factories.len() implies (
                #[trigger] after.factories[i]) == dealt_tiles(start.bag.tiles, i) by {
                    assert(self.factories@[i]@ == dealt_tiles(stocked.tiles, i));
                }
                assert(after.bag =~= (BagView {
                    lid_marker: false,
                    ..start.bag.drawn_from_top((4 * start.factories.len()) as nat)
                }));
            }
            assert forall|t: Tile| t.is_color() implies #[trigger] after.count(t) == 20 by {
                assert(start.count(t) == 20);
                lemma_count_all_of_empties(start.factories, t);
                lemma_count_empty(t);
                assert(stocked.count(t) == start.bag.count(t));
                assert(after.bag.count(t) + count_all(after.factories, t) == stocked.count(t));
                assert(count(after.center.tiles, t) == 0);
                assert(count(start.center.tiles, t) == 0);
            }
        }
        Ok(())
    }

    /// The player in seat `player` takes all tiles of `color` from the
    /// display with the number `display` (the factories are numbered from
    /// zero, the centre has the number after the last factory) and puts
    /// them into row `line` of the pattern lines, or on the floor line
    /// where `line` is `None`. What a factory holds besides goes to the
    /// centre. The first draft from the centre in a round claims the
    /// marker: it rests in the lid, its penalty lies on the player's floor
    /// line, and the player starts the next round. Tiles without room on
    /// the board go to the lid. Then the next seat is to move.
    ///
    /// A draft that is out of turn, that names a display or a colour that
    /// is not on offer, or that names a row that cannot take the colour is
    /// refused, in this order, and the game stays as it is.
    pub fn draft(
        &mut self,
        player: usize,
        display: usize,
        color: Tile,
        line: Option<usize>,
    ) -> (done: Result<(), GameError>)
        requires
            old(self).wf(),
        ensures
            final(self).wf(),
            match done {
                Ok(_) => {
                    &&& old(self)@.draft_error(player as int, display as int, color, target(line))
                        is None
                    &&& final(self)@ == old(self)@.draft(
                        player as int,
                        display as int,
                        color,
                        target(line),
                    )
                },
                Err(e) => {
                    &&& old(self)@.draft_error(player as int, display as int, color, target(line))
                        == Some(e)
                    &&& final(self)@ == old(self)@
                },
            },
    {
        let ghost start = self@;
        match self.draft_check(player, display, color, line) {
            Some(e) => {
                return Err(e);
            },
            None => {},
        }
        proof {
            lemma_draft_wf(start, player as int, display as int, color, target(line));
            assert(start.players[player as int].wf());
        }
        let (tiles, claims) = self.draft_take(display, color);
        if claims {
            self.draft_claim(player);
        }
        self.draft_place(player, color, tiles, line);
        proof {
            let want = start.draft(player as int, display as int, color, target(line));
            let after = self@;
            assert(after.players =~= want.players);
            assert(after =~= want);
        }
        Ok(())
    }

    /// Why a draft is refused, if it is.
    fn draft_check(
        &self,
        player: usize,
        display: usize,
        color: Tile,
        line: Option<usize>,
    ) -> (error: Option<GameError>)
        requires
            self.wf(),
        ensures
            error == self@.draft_error(player as int, display as int, color, target(line)),
    {
        match self.phase {
            Phase::Drafting => {},
            _ => {
                return Some(GameError::OutOfTurn);
            },
        }
        if player != self.current {
            return Some(GameError::OutOfTurn);
        }
        let center_id = self.factories.len();
        if display > center_id {
            return Some(GameError::InvalidSelection);
        }
        let held: usize = if display < center_id {
            self.factories[display].count(color)
        } else {
            self.center.count(color)
        };
        if !color.is_playable() || held == 0 {
            return Some(GameError::InvalidSelection);
        }
        match line {
            Some(row) => {
                if !self.players[player].takes(row, color) {
                    return Some(GameError::IllegalPlacement);
                }
            },
            None => {},
        }
        None
    }

    /// Takes the tiles of `color` from a display. What a factory holds
    /// besides goes to the centre; from the centre the marker is taken too.
    /// Returns the tiles, and whether the marker was taken.
    fn draft_take(&mut self, display: usize, color: Tile) -> (taken: (Vec<Tile>, bool))
        requires
            display <= old(self)@.factories.len(),
        ensures
            taken.0@ == old(self)@.draft_tiles(display as int, color),
            taken.1 == old(self)@.draft_claims(display as int),
            final(self)@ == (GameView {
                factories: old(self)@.draft_factories(display as int),
                center: old(self)@.draft_center(display as int, color),
                ..old(self)@
            }),
    {
        let taken = if display < self.factories.len() {
            let (matched, rest) = self.factories[display].take_color(color);
            self.center.receive(rest);
            (matched, false)
        } else {
            let matched = self.center.take_color(color);
            let claims = self.center.take_first_player_marker();
            (matched, claims)
        };
        proof {
            assert(self@.factories =~= old(self)@.draft_factories(display as int));
            assert(self@.players =~= old(self)@.players);
        }
        taken
    }

    /// The player in seat `player` claims the marker: it rests in the lid,
    /// its penalty lies on the floor line, and the player starts the next
    /// round.
    fn draft_claim(&mut self, player: usize)
        requires
            player < old(self)@.players.len(),
            old(self)@.players[player as int].wf(),
        ensures
            final(self)@ == (GameView {
                bag: old(self)@.bag.discard(marker_token()),
                players: old(self)@.players.update(
                    player as int,
                    old(self)@.players[player as int].floor_only(marker_token()),
                ),
                first_player: player as nat,
                ..old(self)@
            }),
            final(self)@.players[player as int].wf(),
    {
        let for_lid = vec![Tile::FirstPlayer];
        let for_floor = vec![Tile::FirstPlayer];
        assert(for_lid@ =~= marker_token());
        assert(for_floor@ =~= marker_token());
        self.bag.discard(for_lid);
        let _ = self.players[player].place_to_floor_only(for_floor);
        self.first_player = player;
        proof {
            assert(self@.players =~= old(self)@.players.update(
                player as int,
                old(self)@.players[player as int].floor_only(marker_token()),
            ));
            assert(self@.factories =~= old(self)@.factories);
        }
    }

    /// Puts drafted tiles on the board of the player in seat `player`, in
    /// row `line` or on the floor line, and what finds no room in the lid.
    /// Then the next seat is to move.
    fn draft_place(&mut self, player: usize, color: Tile, tiles: Vec<Tile>, line: Option<usize>)
        requires
            player < old(self)@.players.len(),
            old(self)@.current < old(self)@.players.len(),
            old(self)@.players[player as int].wf(),
            match line {
                Some(row) => old(self)@.players[player as int].accepts(row as int, color, tiles@),
                None => true,
            },
        ensures
            final(self)@ == (GameView {
                bag: old(self)@.bag.discard(
                    match line {
                        Some(row) => old(self)@.players[player as int].place_discards(
                            row as int,
                            tiles@,
                        ),
                        None => crate::floor::floor_excess(
                            old(self)@.players[player as int].floor,
                            tiles@,
                        ),
                    },
                ),
                players: old(self)@.players.update(
                    player as int,
                    match line {
                        Some(row) => old(self)@.players[player as int].place(row as int, tiles@),
                        None => old(self)@.players[player as int].floor_only(tiles@),
                    },
                ),
                current: old(self)@.next_player(),
                ..old(self)@
            }),
    {
        let seats = self.players.len();
        let next: usize = if self.current < seats - 1 {
            self.current + 1
        } else {
            0
        };
        let discards = match line {
            Some(row) => self.players[player].put(row, color, &tiles),
            None => self.players[player].place_to_floor_only(tiles),
        };
        self.bag.discard(discards);
        self.current = next;
        proof {
            assert(self@.players =~= old(self)@.players.update(
                player as int,
                match line {
                    Some(row) => old(self)@.players[player as int].place(row as int, tiles@),
                    None => old(self)@.players[player as int].floor_only(tiles@),
                },
            ));
            assert(self@.factories =~= old(self)@.factories);
        }
    }

    /// Whether the round is over: the players are drafting, and no display
    /// offers a playable colour any more. The marker alone in the centre
    /// does not keep a round going.
    pub fn is_round_over(&self) -> (over: bool)
        requires
            self.wf(),
        ensures
            over == self@.round_over(),
    {
        proof {
            lemma_round_over(self@);
        }
        match self.phase {
            Phase::Drafting => {},
            _ => {
                return false;
            },
        }
        if self.center.len() > 0 {
            return false;
        }
        let mut i: usize = 0;
        while i < self.factories.len()
            invariant
                i <= self.factories@.len(),
                self@.phase == Phase::Drafting,
                self@.center.tiles.len() == 0,
                self@.round_over() <==> self@.phase == Phase::Drafting && self@.displays_empty(),
                forall|j: int| 0 <= j < i ==> (#[trigger] self@.factories[j]).len() == 0,
            decreases self.factories@.len() - i,
        {
            if !self.factories[i].is_empty() {
                assert(self@.factories[i as int].len() > 0);
                return false;
            }
            i += 1;
        }
        true
    }

    /// Ends the round: every board, seat by seat, tiles its full rows and
    /// pays for its floor line, what leaves the boards goes to the lid,
    /// and the game is over if a board has a full row. While the round is
    /// not over nothing happens.
    pub fn advance_to_tiling(&mut self) -> (done: Result<(), GameError>)
        requires
            old(self).wf(),
        ensures
            final(self).wf(),
            match done {
                Ok(_) => old(self)@.round_over() && final(self)@ == old(self)@.tiled(),
                Err(e) => {
                    &&& !old(self)@.round_over()
                    &&& e == GameError::OutOfTurn
                    &&& final(self)@ == old(self)@
                },
            },
    {
        if !self.is_round_over() {
            return Err(GameError::OutOfTurn);
        }
        let ghost start = self@;
        let mut discards: Vec<Tile> = Vec::new();
        let mut over = false;
        let mut seat: usize = 0;
        proof {
            lemma_tiled_wf(start);
        }
        while seat < self.players.len()
            invariant
                seat <= self.players@.len(),
                self.players@.len() == start.players.len(),
                start.wf(),
                forall|j: int|
                    0 <= j < seat ==> (#[trigger] self.players@[j])@ == start.players[j].tiled(),
                forall|j: int|
                    seat <= j < self.players@.len() ==> (#[trigger] self.players@[j])@
                        == start.players[j],
                discards@ == boards_discards(start.players, seat as int),
                over == full_row_below(start.tiled_boards(), seat as int),
                self.bag@ == start.bag,
                self.factories@ == old(self).factories@,
                self.center@ == start.center,
                self.current == start.current,
                self.first_player == start.first_player,
                self.round == start.round,
            decreases self.players@.len() - seat,
        {
            assert(start.players[seat as int].wf());
            let given = self.players[seat].tile_wall();
            append_from(&mut discards, &given, 0);
            let full = self.players[seat].wall().has_full_row();
            proof {
                assert(given@.skip(0) =~= given@);
                assert(start.tiled_boards()[seat as int] == start.players[seat as int].tiled());
                if full {
                    assert(full_row_below(start.tiled_boards(), seat + 1));
                } else if full_row_below(start.tiled_boards(), seat + 1) {
                    let i = choose|i: int|
                        0 <= i < seat + 1 && full_rows(
                            (#[trigger] start.tiled_boards()[i]).wall,
                        ) > 0;
                    assert(i < seat);
                }
            }
            if full {
                over = true;
            }
            seat += 1;
        }
        self.bag.discard(discards);
        self.phase = if over {
            Phase::GameEnd
        } else {
            Phase::RoundEnd
        };
        proof {
            let want = start.tiled();
            let after = self@;
            assert(after.players =~= want.players);
            assert(after.factories =~= want.factories);
            assert(after =~= want);
        }
        Ok(())
    }

    /// Whether the game is over: the boards were tiled and a row is full.
    pub fn is_game_over(&self) -> (over: bool)
        ensures
            over == (self@.phase == Phase::GameEnd),
    {
        match self.phase {
            Phase::GameEnd => true,
            _ => false,
        }
    }

    /// The score of each seat with the bonus of its wall added.
    pub fn final_scores(&self) -> (scores: Vec<u32>)
        requires
            self.wf(),
        ensures
            scores@.len() == self@.players.len(),
            forall|i: int|
                0 <= i < scores@.len() ==> #[trigger] scores@[i] == self@.players[i].final_score(),
    {
        let mut scores: Vec<u32> = Vec::new();
        let mut seat: usize = 0;
        while seat < self.players.len()
            invariant
                seat <= self.players@.len(),
                self.wf(),
                scores@.len() == seat,
                forall|i: int|
                    0 <= i < seat ==> #[trigger] scores@[i] == self@.players[i].final_score(),
            decreases self.players@.len() - seat,
        {
            assert(self@.players[seat as int].wf());
            scores.push(self.players[seat].final_score());
            seat += 1;
        }
        scores
    }

    /// Whether the board in seat `a` stands before the board in seat `b`.
    fn seat_leads(&self, a: usize, b: usize) -> (ahead: bool)
        requires
            self.wf(),
            a < self@.players.len(),
            b < self@.players.len(),
        ensures
            ahead == leads(self@.players[a as int], self@.players[b as int]),
    {
        assert(self@.players[a as int].wf());
        assert(self@.players[b as int].wf());
        let score_a = self.players[a].final_score();
        let score_b = self.players[b].final_score();
        score_a > score_b || (score_a == score_b && self.players[a].wall().full_rows()
            > self.players[b].wall().full_rows())
    }

    /// The seat that wins as the boards stand: the one with the highest
    /// final score, or among equal scores the one with the most full rows.
    /// Where no seat stands before all others the game is a draw.
    pub fn winner(&self) -> (seat: Option<usize>)
        requires
            self.wf(),
        ensures
            match seat {
                Some(w) => w < self@.players.len() && leads_all(self@.players, w as int),
                None => is_draw(self@.players),
            },
    {
        let ghost boards = self@.players;
        let mut best: usize = 0;
        let mut seat: usize = 1;
        while seat < self.players.len()
            invariant
                1 <= seat <= self.players@.len(),
                best < seat,
                self.wf(),
                boards == self@.players,
                forall|j: int| 0 <= j < seat ==> !leads(#[trigger] boards[j], boards[best as int]),
            decreases self.players@.len() - seat,
        {
            if self.seat_leads(seat, best) {
                best = seat;
            }
            seat += 1;
        }
        let mut other: usize = 0;
        while other < self.players.len()
            invariant
                other <= self.players@.len(),
                best < self.players@.len(),
                self.wf(),
                boards == self@.players,
                forall|j: int|
                    0 <= j < boards.len() ==> !leads(#[trigger] boards[j], boards[best as int]),
                forall|j: int|
                    0 <= j < other && j != best ==> leads(
                        boards[best as int],
                        #[trigger] boards[j],
                    ),
            decreases self.players@.len() - other,
        {
            if other != best {
                if !self.seat_leads(best, other) {
                    proof {
                        lemma_draw(boards, best as int, other as int);
                    }
                    return None;
                }
            }
            other += 1;
        }
        Some(best)
    }

    /// The displays with their numbers and what each shows: the factories
    /// first, the centre last, with the marker before its tiles while the
    /// marker lies there.
    pub fn available_displays(&self) -> (displays: Vec<(usize, Vec<Tile>)>)
        ensures
            displays@.len() == self@.factories.len() + 1,
            forall|d: int|
                0 <= d < displays@.len() ==> (#[trigger] displays@[d]).0 == d && displays@[d].1@
                    == self@.shown(d),
    {
        let mut displays: Vec<(usize, Vec<Tile>)> = Vec::new();
        let mut i: usize = 0;
        while i < self.factories.len()
            invariant
                i <= self.factories@.len(),
                displays@.len() == i,
                forall|d: int|
                    0 <= d < i ==> (#[trigger] displays@[d]).0 == d && displays@[d].1@
                        == self@.shown(d),
            decreases self.factories@.len() - i,
        {
            displays.push((i, self.factories[i].tiles()));
            i += 1;
        }
        displays.push((i, self.center.contents()));
        displays
    }

    /// The board in seat `player`, to look at.
    pub fn board_view(&self, player: usize) -> (board: Option<&Player>)
        ensures
            board is Some <==> player < self@.players.len(),
            board matches Some(b) ==> b@ == self@.players[player as int],
    {
        if player < self.players.len() {
            Some(&self.players[player])
        } else {
            None
        }
    }

    pub fn phase(&self) -> (phase: Phase)
        ensures
            phase == self@.phase,
    {
        self.phase
    }

    /// The seat of the player whose turn it is.
    pub fn current_player(&self) -> (seat: usize)
        ensures
            seat == self@.current,
    {
        self.current
    }

    /// The seat of the player who starts the next round.
    pub fn first_player(&self) -> (seat: usize)
        ensures
            seat == self@.first_player,
    {
        self.first_player
    }

    /// The number of rounds dealt so far.
    pub fn round(&self) -> (round: u64)
        ensures
            round == self@.round,
    {
        self.round
    }

    pub fn player_count(&self) -> (n: usize)
        ensures
            n == self@.players.len(),
    {
        self.players.len()
    }

    pub fn factory_count(&self) -> (n: usize)
        ensures
            n == self@.factories.len(),
    {
        self.factories.len()
    }

    /// The supply, to look at.
    pub fn bag(&self) -> (bag: &Bag)
        ensures
            bag@ == self@.bag,
    {
        &self.bag
    }

    /// The centre, to look at.
    pub fn center(&self) -> (center: &Center)
        ensures
            center@ == self@.center,
    {
        &self.center
    }

    /// The factory with the given number, to look at.
    pub fn factory(&self, number: usize) -> (factory: Option<&Factory>)
        ensures
            factory is Some <==> number < self@.factories.len(),
            factory matches Some(f) ==> f@ == self@.factories[number as int],
    {
        if number < self.factories.len() {
            Some(&self.factories[number])
        } else {
            None
        }
    }
}

} // verus!
