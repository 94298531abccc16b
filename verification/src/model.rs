//! The game as a mathematical state: what a game holds, what each move
//! makes of it, and the laws that every move keeps.

use vstd::prelude::*;
use crate::bag::{lemma_discard, BagView};
use crate::display::{factory_wf, lemma_receive, offers, CenterView};
use crate::floor::floor_excess;
use crate::player::{lemma_floor_only, lemma_place, lemma_tiled, PlayerView};
use crate::tally::{
    all_colors, all_same, count, count_all, lemma_count_absent, lemma_count_all_update,
    lemma_count_concat, lemma_count_empty, lemma_count_push, lemma_count_split,
    lemma_split_by_color, matching, others,
};
use crate::tile::{GameError, PlayerColor, Tile};
use crate::wall::full_rows;

verus! {

/// Where a game stands.
#[derive(Clone, Copy, Debug, PartialEq, Eq, Structural)]
pub enum Phase {
    /// The boards are laid out; no tiles have been dealt.
    Setup,
    /// The players draft in turn.
    Drafting,
    /// The boards have been tiled and no row is full: another round is due.
    RoundEnd,
    /// The boards have been tiled and a row is full: the game is over.
    GameEnd,
}

/// What a game holds.
#[verifier::ext_equal]
pub struct GameView {
    pub bag: BagView,
    pub players: Seq<PlayerView>,
    pub factories: Seq<Seq<Tile>>,
    pub center: CenterView,
    pub phase: Phase,
    /// The seat of the player whose turn it is.
    pub current: nat,
    /// The seat of the player who starts the next round.
    pub first_player: nat,
    /// The number of rounds dealt so far.
    pub round: nat,
}

/// The number of factories in a game of so many players.
pub open spec fn factory_count(players: int) -> int {
    2 * players + 1
}

/// The round number after another round was dealt; it stops at the largest
/// number that the counter holds.
pub open spec fn next_round(round: nat) -> nat {
    if round < u64::MAX {
        round + 1
    } else {
        round
    }
}

/// The marker as the one tile that is handed around.
pub open spec fn marker_token() -> Seq<Tile> {
    Seq::<Tile>::empty().push(Tile::FirstPlayer)
}

/// A display that offers no playable colour.
pub open spec fn offers_nothing(tiles: Seq<Tile>) -> bool {
    forall|c: Tile| !offers(tiles, c)
}

/// The number of tiles `t` on the boards of the first `upto` seats.
pub open spec fn board_count_below(boards: Seq<PlayerView>, t: Tile, upto: int) -> nat
    decreases upto,
{
    if upto <= 0 {
        0
    } else {
        board_count_below(boards, t, upto - 1) + boards[upto - 1].count(t)
    }
}

/// The number of tiles `t` on all boards.
pub open spec fn board_count(boards: Seq<PlayerView>, t: Tile) -> nat {
    board_count_below(boards, t, boards.len() as int)
}

/// The tiles that the boards of the first `upto` seats give to the lid at
/// the end of a round, seat by seat.
pub open spec fn boards_discards(boards: Seq<PlayerView>, upto: int) -> Seq<Tile>
    decreases upto,
{
    if upto <= 0 {
        Seq::empty()
    } else {
        boards_discards(boards, upto - 1) + boards[upto - 1].tiled_discards()
    }
}

/// Whether a board among the first `upto` seats has a full row.
pub open spec fn full_row_below(boards: Seq<PlayerView>, upto: int) -> bool {
    exists|i: int| 0 <= i < upto && full_rows((#[trigger] boards[i]).wall) > 0
}

/// Whether some board has a full row, which ends the game.
pub open spec fn ends_game(boards: Seq<PlayerView>) -> bool {
    full_row_below(boards, boards.len() as int)
}

/// How many tiles the factory with the given number gets when `available`
/// tiles can be drawn and each factory before it took four.
pub open spec fn dealt_len(available: nat, factory: int) -> nat {
    if available >= 4 * factory + 4 {
        4
    } else if available > 4 * factory {
        (available - 4 * factory) as nat
    } else {
        0
    }
}

/// The tiles that the factory with the given number gets from a bag that
/// holds enough for all factories: four from the end of the bag, after the
/// fours of the factories before it, in the order in which they are drawn.
pub open spec fn dealt_tiles(bag: Seq<Tile>, factory: int) -> Seq<Tile> {
    bag.subrange(bag.len() - 4 * factory - 4, bag.len() - 4 * factory).reverse()
}

/// The row that a draft names, as a number of the model.
pub open spec fn target(line: Option<usize>) -> Option<int> {
    match line {
        Some(row) => Some(row as int),
        None => None,
    }
}

/// Whether board `a` stands before board `b`: by the higher final score,
/// and with equal scores by the greater number of full rows.
pub open spec fn leads(a: PlayerView, b: PlayerView) -> bool {
    a.final_score() > b.final_score() || (a.final_score() == b.final_score() && full_rows(a.wall)
        > full_rows(b.wall))
}

/// Whether the board in seat `seat` stands before every other board.
pub open spec fn leads_all(boards: Seq<PlayerView>, seat: int) -> bool {
    forall|j: int| 0 <= j < boards.len() && j != seat ==> leads(boards[seat], #[trigger] boards[j])
}

/// Whether no board stands before every other: the game is a draw.
pub open spec fn is_draw(boards: Seq<PlayerView>) -> bool {
    forall|i: int| 0 <= i < boards.len() ==> !#[trigger] leads_all(boards, i)
}

/// Where a board that none stands before does not stand before another,
/// no board stands before every other.
pub proof fn lemma_draw(boards: Seq<PlayerView>, best: int, other: int)
    requires
        0 <= best < boards.len(),
        0 <= other < boards.len(),
        other != best,
        !leads(boards[best], boards[other]),
        forall|j: int| 0 <= j < boards.len() ==> !leads(#[trigger] boards[j], boards[best]),
    ensures
        is_draw(boards),
{
    assert forall|i: int| 0 <= i < boards.len() implies !#[trigger] leads_all(boards, i) by {
        if i == best {
            assert(!leads(boards[i], boards[other]));
        } else {
            assert(!leads(boards[i], boards[best]));
        }
    }
}

impl GameView {
    /// The number of tiles `t` in the game: in bag and lid, on the
    /// displays and on the boards.
    pub open spec fn count(self, t: Tile) -> nat {
        self.bag.count(t) + count_all(self.factories, t) + count(self.center.tiles, t)
            + board_count(self.players, t)
    }

    /// Nothing is lost and nothing is made: the game holds twenty tiles of
    /// each colour, and the marker lies in the centre or rests in the lid.
    pub open spec fn conserved(self) -> bool {
        &&& forall|t: Tile| t.is_color() ==> #[trigger] self.count(t) == 20
        &&& self.center.marker != self.bag.lid_marker
    }

    /// Whether no display holds a tile.
    pub open spec fn displays_empty(self) -> bool {
        &&& self.center.tiles.len() == 0
        &&& forall|i: int|
            0 <= i < self.factories.len() ==> (#[trigger] self.factories[i]).len() == 0
    }

    pub open spec fn wf(self) -> bool {
        &&& 1 <= self.players.len() <= 4
        &&& self.factories.len() == factory_count(self.players.len() as int)
        &&& forall|i: int|
            0 <= i < self.players.len() ==> (#[trigger] self.players[i]).wf()
                && self.players[i].color == PlayerColor::of_seat(i)
        &&& forall|i: int|
            0 <= i < self.factories.len() ==> factory_wf(#[trigger] self.factories[i])
        &&& self.center.wf()
        &&& self.bag.wf()
        &&& self.current < self.players.len()
        &&& self.first_player < self.players.len()
        &&& self.round <= u64::MAX
        &&& self.conserved()
        &&& self.phase != Phase::Drafting ==> self.displays_empty()
    }

    /// The tiles of a display: the factories are numbered from zero, the
    /// centre has the number after the last factory.
    pub open spec fn display_tiles(self, display: int) -> Seq<Tile> {
        if 0 <= display < self.factories.len() {
            self.factories[display]
        } else if display == self.factories.len() {
            self.center.tiles
        } else {
            Seq::empty()
        }
    }

    /// What a display shows: its tiles, and for the centre the marker too.
    pub open spec fn shown(self, display: int) -> Seq<Tile> {
        if display == self.factories.len() {
            self.center.contents()
        } else {
            self.display_tiles(display)
        }
    }

    /// Why a draft is refused, if it is: it is not the player's turn; or
    /// the display does not offer the colour; or the row cannot take it.
    pub open spec fn draft_error(
        self,
        player: int,
        display: int,
        color: Tile,
        line: Option<int>,
    ) -> Option<GameError> {
        if self.phase != Phase::Drafting || player != self.current {
            Some(GameError::OutOfTurn)
        } else if !(0 <= display <= self.factories.len()) || !offers(
            self.display_tiles(display),
            color,
        ) {
            Some(GameError::InvalidSelection)
        } else if match line {
            Some(row) => !self.players[player].takes(row, color),
            None => false,
        } {
            Some(GameError::IllegalPlacement)
        } else {
            None
        }
    }

    /// The tiles that a draft hands to the player.
    pub open spec fn draft_tiles(self, display: int, color: Tile) -> Seq<Tile> {
        matching(self.display_tiles(display), color)
    }

    /// Whether a draft from this display claims the marker.
    pub open spec fn draft_claims(self, display: int) -> bool {
        display == self.factories.len() && self.center.marker
    }

    /// The player's board once the marker's penalty lies on the floor line,
    /// where the draft claims the marker.
    pub open spec fn draft_marked(self, player: int, display: int) -> PlayerView {
        if self.draft_claims(display) {
            self.players[player].floor_only(marker_token())
        } else {
            self.players[player]
        }
    }

    /// The player's board after the draft.
    pub open spec fn draft_board(
        self,
        player: int,
        display: int,
        color: Tile,
        line: Option<int>,
    ) -> PlayerView {
        let board = self.draft_marked(player, display);
        let tiles = self.draft_tiles(display, color);
        match line {
            Some(row) => board.place(row, tiles),
            None => board.floor_only(tiles),
        }
    }

    /// The drafted tiles for which the board has no room.
    pub open spec fn draft_discards(
        self,
        player: int,
        display: int,
        color: Tile,
        line: Option<int>,
    ) -> Seq<Tile> {
        let board = self.draft_marked(player, display);
        let tiles = self.draft_tiles(display, color);
        match line {
            Some(row) => board.place_discards(row, tiles),
            None => floor_excess(board.floor, tiles),
        }
    }

    /// The supply after the draft: the marker, if claimed, rests in the
    /// lid, and the tiles without room are in it.
    pub open spec fn draft_bag(
        self,
        player: int,
        display: int,
        color: Tile,
        line: Option<int>,
    ) -> BagView {
        let bag = if self.draft_claims(display) {
            self.bag.discard(marker_token())
        } else {
            self.bag
        };
        bag.discard(self.draft_discards(player, display, color, line))
    }

    /// The centre after the draft: without the colour and the marker when
    /// it was drafted from, with the factory's other tiles when it was not.
    pub open spec fn draft_center(self, display: int, color: Tile) -> CenterView {
        if display == self.factories.len() {
            CenterView { tiles: others(self.center.tiles, color), marker: false }
        } else {
            self.center.receive(others(self.factories[display], color))
        }
    }

    /// The factories after the draft: the one drafted from is empty.
    pub open spec fn draft_factories(self, display: int) -> Seq<Seq<Tile>> {
        if 0 <= display < self.factories.len() {
            self.factories.update(display, Seq::empty())
        } else {
            self.factories
        }
    }

    /// The seat after the current one, the first seat after the last.
    pub open spec fn next_player(self) -> nat {
        if self.current + 1 < self.players.len() {
            self.current + 1
        } else {
            0
        }
    }

    /// The game after a draft that is not refused.
    pub open spec fn draft(
        self,
        player: int,
        display: int,
        color: Tile,
        line: Option<int>,
    ) -> GameView {
        GameView {
            bag: self.draft_bag(player, display, color, line),
            players: self.players.update(
                player,
                self.draft_board(player, display, color, line),
            ),
            factories: self.draft_factories(display),
            center: self.draft_center(display, color),
            current: self.next_player(),
            first_player: if self.draft_claims(display) {
                player as nat
            } else {
                self.first_player
            },
            ..self
        }
    }

    /// Whether the round is over: the players are drafting, and no display
    /// offers a playable colour any more.
    pub open spec fn round_over(self) -> bool {
        &&& self.phase == Phase::Drafting
        &&& forall|display: int|
            0 <= display <= self.factories.len() ==> offers_nothing(
                #[trigger] self.display_tiles(display),
            )
    }

    /// The boards after the end of the round.
    pub open spec fn tiled_boards(self) -> Seq<PlayerView> {
        Seq::new(self.players.len(), |i: int| self.players[i].tiled())
    }

    /// The game after the boards were tiled at the end of a round.
    pub open spec fn tiled(self) -> GameView {
        let boards = self.tiled_boards();
        GameView {
            bag: self.bag.discard(boards_discards(self.players, self.players.len() as int)),
            players: boards,
            phase: if ends_game(boards) {
                Phase::GameEnd
            } else {
                Phase::RoundEnd
            },
            ..self
        }
    }
}

/// Nothing is lost and nothing is made: a well-formed game holds twenty
/// tiles of each colour, a hundred in all, and one marker, which lies in
/// the centre or rests in the lid.
pub proof fn lemma_inventory(game: GameView)
    requires
        game.wf(),
    ensures
        forall|t: Tile| t.is_color() ==> game.count(t) == 20,
        game.count(Tile::Blue) + game.count(Tile::Yellow) + game.count(Tile::Red) + game.count(
            Tile::Black,
        ) + game.count(Tile::Teal) == 100,
        game.center.marker != game.bag.lid_marker,
{
    assert(game.count(Tile::Blue) == 20);
    assert(game.count(Tile::Yellow) == 20);
    assert(game.count(Tile::Red) == 20);
    assert(game.count(Tile::Black) == 20);
    assert(game.count(Tile::Teal) == 20);
}

/// Boards that differ in one seat differ in their tiles by that board.
pub proof fn lemma_board_count_update(
    boards: Seq<PlayerView>,
    seat: int,
    board: PlayerView,
    t: Tile,
    upto: int,
)
    requires
        0 <= seat < boards.len(),
        0 <= upto <= boards.len(),
    ensures
        board_count_below(boards.update(seat, board), t, upto) + (if seat < upto {
            boards[seat].count(t)
        } else {
            0
        }) == board_count_below(boards, t, upto) + (if seat < upto {
            board.count(t)
        } else {
            0
        }),
    decreases upto,
{
    if upto > 0 {
        lemma_board_count_update(boards, seat, board, t, upto - 1);
    }
}

/// The boards of the first seats hold no more than all boards.
pub proof fn lemma_board_count_prefix(boards: Seq<PlayerView>, t: Tile, upto: int)
    requires
        0 <= upto <= boards.len(),
    ensures
        board_count_below(boards, t, upto) <= board_count(boards, t),
    decreases boards.len() - upto,
{
    if upto < boards.len() {
        lemma_board_count_prefix(boards, t, upto + 1);
    }
}

/// The marker alone holds no playable tile, whatever part of it is taken.
proof fn lemma_marker_token(k: int, t: Tile)
    requires
        t.is_color(),
        0 <= k <= 1,
    ensures
        count(marker_token(), t) == 0,
        count(marker_token().skip(k), t) == 0,
        count(marker_token().take(k), t) == 0,
        marker_token().contains(Tile::FirstPlayer),
{
    lemma_count_empty(t);
    lemma_count_push(Seq::<Tile>::empty(), Tile::FirstPlayer, t);
    lemma_count_split(marker_token(), k, t);
    assert(marker_token()[0] == Tile::FirstPlayer);
}

/// Handing the marker over moves the marker and no tile.
pub proof fn lemma_marker_moves(center: CenterView, bag: BagView)
    ensures
        center.receive(marker_token()) == (CenterView { marker: true, ..center }),
        bag.discard(marker_token()) == (BagView { lid_marker: true, ..bag }),
{
    crate::tally::lemma_colors_of_push(Seq::<Tile>::empty(), Tile::FirstPlayer);
    crate::tally::lemma_colors_of_are_colors(Seq::<Tile>::empty());
    assert(crate::tally::colors_of(marker_token()) =~= Seq::<Tile>::empty());
    assert(marker_token()[0] == Tile::FirstPlayer);
    assert(marker_token().contains(Tile::FirstPlayer));
    assert(center.tiles + Seq::<Tile>::empty() =~= center.tiles);
    assert(bag.lid + Seq::<Tile>::empty() =~= bag.lid);
}

/// A part of tiles of one colour is of that colour.
proof fn lemma_skip_same(tiles: Seq<Tile>, color: Tile, k: int)
    requires
        all_same(tiles, color),
        0 <= k <= tiles.len(),
    ensures
        all_same(tiles.skip(k), color),
{
    assert forall|i: int| 0 <= i < tiles.skip(k).len() implies #[trigger] tiles.skip(k)[i]
        == color by {
        assert(tiles.skip(k)[i] == tiles[i + k]);
    }
}

/// Tiles of one playable colour are playable tiles, and the marker is not
/// among them.
proof fn lemma_same_are_colors(tiles: Seq<Tile>, color: Tile)
    requires
        all_same(tiles, color),
        color.is_color(),
    ensures
        all_colors(tiles),
        !tiles.contains(Tile::FirstPlayer),
{
    if tiles.contains(Tile::FirstPlayer) {
        let i = choose|i: int| 0 <= i < tiles.len() && tiles[i] == Tile::FirstPlayer;
        assert(tiles[i] == color);
    }
}

/// What a draft does to the player's board: the board stays well formed,
/// and each drafted tile is on it or among the tiles for the lid.
pub proof fn lemma_draft_board(
    game: GameView,
    player: int,
    display: int,
    color: Tile,
    line: Option<int>,
    t: Tile,
)
    requires
        game.wf(),
        game.draft_error(player, display, color, line) is None,
        t.is_color(),
    ensures
        game.draft_board(player, display, color, line).wf(),
        game.draft_board(player, display, color, line).color == game.players[player].color,
        game.draft_board(player, display, color, line).count(t) + count(
            game.draft_discards(player, display, color, line),
            t,
        ) == game.players[player].count(t) + count(game.draft_tiles(display, color), t),
        all_same(game.draft_discards(player, display, color, line), color),
{
    let board = game.players[player];
    let marked = game.draft_marked(player, display);
    let tiles = game.draft_tiles(display, color);
    assert(board.wf());
    lemma_split_by_color(game.display_tiles(display), color, t);
    if game.draft_claims(display) {
        lemma_floor_only(board, marker_token(), t);
        lemma_marker_token(
            crate::floor::floor_kept(board.floor, marker_token().len()) as int,
            t,
        );
    }
    assert(marked.wf());
    assert(marked.count(t) == board.count(t));
    match line {
        Some(row) => {
            lemma_place(marked, row, color, tiles, t);
        },
        None => {
            lemma_floor_only(marked, tiles, t);
            lemma_skip_same(
                tiles,
                color,
                crate::floor::floor_kept(marked.floor, tiles.len()) as int,
            );
        },
    }
}

/// What a draft does to the supply: it stays well formed, the tiles
/// without room are counted in it, and the marker rests in the lid if and
/// only if it did before or was claimed.
pub proof fn lemma_draft_bag(
    game: GameView,
    player: int,
    display: int,
    color: Tile,
    line: Option<int>,
    t: Tile,
)
    requires
        game.wf(),
        game.draft_error(player, display, color, line) is None,
        t.is_color(),
    ensures
        game.draft_bag(player, display, color, line).wf(),
        game.draft_bag(player, display, color, line).count(t) == game.bag.count(t) + count(
            game.draft_discards(player, display, color, line),
            t,
        ),
        game.draft_bag(player, display, color, line).lid_marker == (game.bag.lid_marker
            || game.draft_claims(display)),
{
    let discards = game.draft_discards(player, display, color, line);
    lemma_draft_board(game, player, display, color, line, t);
    lemma_same_are_colors(discards, color);
    lemma_marker_token(0, t);
    let bag = if game.draft_claims(display) {
        game.bag.discard(marker_token())
    } else {
        game.bag
    };
    lemma_discard(game.bag, marker_token(), t);
    lemma_discard(bag, discards, t);
}

/// What a draft does to the displays: they stay well formed, and the tiles
/// that leave them are the tiles handed to the player.
pub proof fn lemma_draft_displays(game: GameView, display: int, color: Tile, t: Tile)
    requires
        game.wf(),
        0 <= display <= game.factories.len(),
        offers(game.display_tiles(display), color),
        t.is_color(),
    ensures
        game.draft_center(display, color).wf(),
        forall|i: int|
            0 <= i < game.factories.len() ==> factory_wf(
                #[trigger] game.draft_factories(display)[i],
            ),
        game.draft_factories(display).len() == game.factories.len(),
        count_all(game.draft_factories(display), t) + count(
            game.draft_center(display, color).tiles,
            t,
        ) + count(game.draft_tiles(display, color), t) == count_all(game.factories, t) + count(
            game.center.tiles,
            t,
        ),
        game.draft_center(display, color).marker == (game.center.marker && display
            < game.factories.len()),
{
    let source = game.display_tiles(display);
    lemma_split_by_color(source, color, t);
    lemma_split_by_color(source, color, Tile::FirstPlayer);
    if display < game.factories.len() {
        assert(factory_wf(game.factories[display]));
        let rest = others(source, color);
        lemma_receive(game.center, rest, t);
        lemma_count_all_update(game.factories, display, Seq::empty(), t);
        lemma_count_empty(t);
        crate::tally::lemma_colors_no_marker(rest);
        lemma_count_absent(rest, Tile::FirstPlayer);
        assert forall|i: int| 0 <= i < game.factories.len() implies factory_wf(
            #[trigger] game.draft_factories(display)[i],
        ) by {
            if i != display {
                assert(factory_wf(game.factories[i]));
            }
        }
    } else {
        assert forall|i: int| 0 <= i < game.factories.len() implies factory_wf(
            #[trigger] game.draft_factories(display)[i],
        ) by {
            assert(factory_wf(game.factories[i]));
        }
    }
}

/// A draft that is not refused loses and makes no tile.
pub proof fn lemma_draft_count(
    game: GameView,
    player: int,
    display: int,
    color: Tile,
    line: Option<int>,
    t: Tile,
)
    requires
        game.wf(),
        game.draft_error(player, display, color, line) is None,
        t.is_color(),
    ensures
        game.draft(player, display, color, line).count(t) == game.count(t),
{
    let after = game.draft(player, display, color, line);
    let board = game.draft_board(player, display, color, line);
    let discards = game.draft_discards(player, display, color, line);
    let tiles = game.draft_tiles(display, color);
    lemma_draft_board(game, player, display, color, line, t);
    lemma_draft_bag(game, player, display, color, line, t);
    lemma_draft_displays(game, display, color, t);
    lemma_board_count_update(game.players, player, board, t, game.players.len() as int);
    assert(after.bag.count(t) == game.bag.count(t) + count(discards, t));
    assert(count_all(after.factories, t) + count(after.center.tiles, t) + count(tiles, t)
        == count_all(game.factories, t) + count(game.center.tiles, t));
    assert(board.count(t) + count(discards, t) == game.players[player].count(t) + count(tiles, t));
    assert(board_count(after.players, t) + game.players[player].count(t) == board_count(
        game.players,
        t,
    ) + board.count(t));
}

/// A draft that is not refused keeps the boards well formed and in their
/// seats.
proof fn lemma_draft_boards(
    game: GameView,
    player: int,
    display: int,
    color: Tile,
    line: Option<int>,
)
    requires
        game.wf(),
        game.draft_error(player, display, color, line) is None,
    ensures
        game.draft(player, display, color, line).players.len() == game.players.len(),
        forall|i: int|
            0 <= i < game.players.len() ==> (#[trigger] game.draft(
                player,
                display,
                color,
                line,
            ).players[i]).wf() && game.draft(player, display, color, line).players[i].color
                == PlayerColor::of_seat(i),
{
    let after = game.draft(player, display, color, line);
    lemma_draft_board(game, player, display, color, line, color);
    assert forall|i: int| 0 <= i < game.players.len() implies (#[trigger] after.players[i]).wf()
        && after.players[i].color == PlayerColor::of_seat(i) by {
        if i != player {
            assert(game.players[i].wf());
        }
    }
}

/// A draft that is not refused keeps the game well formed: in particular
/// no tile is lost or made, and the marker is in one place.
pub proof fn lemma_draft_wf(
    game: GameView,
    player: int,
    display: int,
    color: Tile,
    line: Option<int>,
)
    requires
        game.wf(),
        game.draft_error(player, display, color, line) is None,
    ensures
        game.draft(player, display, color, line).wf(),
{
    let after = game.draft(player, display, color, line);
    lemma_draft_boards(game, player, display, color, line);
    lemma_draft_bag(game, player, display, color, line, color);
    lemma_draft_displays(game, display, color, color);
    assert forall|t: Tile| t.is_color() implies #[trigger] after.count(t) == 20 by {
        lemma_draft_count(game, player, display, color, line, t);
        assert(game.count(t) == 20);
    }
    assert(after.conserved());
}

/// No tile is lost or made when boards are tiled: what leaves the boards
/// of the first seats is among the tiles for the lid.
pub proof fn lemma_boards_tiled(game: GameView, t: Tile, upto: int)
    requires
        game.wf(),
        t.is_color(),
        0 <= upto <= game.players.len(),
    ensures
        board_count_below(game.tiled_boards(), t, upto) + count(
            boards_discards(game.players, upto),
            t,
        ) == board_count_below(game.players, t, upto),
        all_colors(boards_discards(game.players, upto)),
    decreases upto,
{
    if upto <= 0 {
        lemma_count_empty(t);
    } else {
        lemma_boards_tiled(game, t, upto - 1);
        let board = game.players[upto - 1];
        assert(board.wf());
        assert(game.tiled_boards()[upto - 1] == board.tiled());
        lemma_tiled(board, t);
        let before = boards_discards(game.players, upto - 1);
        lemma_count_concat(before, board.tiled_discards(), t);
        let all = before + board.tiled_discards();
        assert forall|i: int| 0 <= i < all.len() implies (#[trigger] all[i]).is_color() by {
            if i < before.len() {
                assert(all[i] == before[i]);
            } else {
                assert(all[i] == board.tiled_discards()[i - before.len()]);
            }
        }
    }
}

/// A display of playable tiles that offers no colour is empty.
pub proof fn lemma_offers_nothing(tiles: Seq<Tile>)
    requires
        all_colors(tiles),
    ensures
        offers_nothing(tiles) <==> tiles.len() == 0,
{
    if tiles.len() > 0 {
        lemma_count_absent(tiles, tiles[0]);
        assert(tiles.contains(tiles[0]));
        assert(offers(tiles, tiles[0]));
    } else {
        assert forall|c: Tile| !offers(tiles, c) by {
            assert(tiles =~= Seq::<Tile>::empty());
            lemma_count_empty(c);
        }
    }
}

/// When the round is over, every display is empty.
pub proof fn lemma_round_over(game: GameView)
    requires
        game.wf(),
    ensures
        game.round_over() <==> game.phase == Phase::Drafting && game.displays_empty(),
{
    lemma_offers_nothing(game.center.tiles);
    assert forall|i: int| 0 <= i < game.factories.len() implies (offers_nothing(
        #[trigger] game.factories[i],
    ) <==> game.factories[i].len() == 0) by {
        assert(factory_wf(game.factories[i]));
        lemma_offers_nothing(game.factories[i]);
    }
    if game.round_over() {
        assert(game.display_tiles(game.factories.len() as int) == game.center.tiles);
        assert forall|i: int| 0 <= i < game.factories.len() implies (
        #[trigger] game.factories[i]).len() == 0 by {
            assert(game.display_tiles(i) == game.factories[i]);
        }
    }
    if game.phase == Phase::Drafting && game.displays_empty() {
        assert forall|display: int| 0 <= display <= game.factories.len() implies offers_nothing(
            #[trigger] game.display_tiles(display),
        ) by {
            if display < game.factories.len() {
                assert(game.factories[display].len() == 0);
            }
        }
    }
}

/// The end of a round keeps the game well formed: in particular no tile is
/// lost or made, and the marker is in one place.
pub proof fn lemma_tiled_wf(game: GameView)
    requires
        game.wf(),
        game.round_over(),
    ensures
        game.tiled().wf(),
{
    let after = game.tiled();
    let n = game.players.len() as int;
    lemma_round_over(game);
    lemma_boards_tiled(game, Tile::Blue, n);
    lemma_discard(game.bag, boards_discards(game.players, n), Tile::Blue);
    crate::tally::lemma_colors_no_marker(boards_discards(game.players, n));
    lemma_count_absent(boards_discards(game.players, n), Tile::FirstPlayer);
    assert forall|i: int| 0 <= i < after.players.len() implies (#[trigger] after.players[i]).wf()
        && after.players[i].color == PlayerColor::of_seat(i) by {
        assert(game.players[i].wf());
        lemma_tiled(game.players[i], Tile::Blue);
    }
    assert forall|t: Tile| t.is_color() implies #[trigger] after.count(t) == 20 by {
        lemma_boards_tiled(game, t, n);
        lemma_discard(game.bag, boards_discards(game.players, n), t);
        assert(game.count(t) == 20);
    }
}

} // verus!
