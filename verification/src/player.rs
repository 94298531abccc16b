//! A player's board: pattern lines, wall, floor line and score, and the
//! moves that the rules allow on them.

use vstd::prelude::*;
use crate::floor::{
    floor_add_all, floor_excess, floor_kept, floor_penalty, floor_wf, lemma_penalty_monotone,
    FloorLine,
};
use crate::lines::{
    empty_lines, lemma_lines_add_count, lemma_lines_add_wf, line_accepts, line_full, line_kept,
    line_wf, lines_add, lines_wf, rows_of, PatternLines,
};
use crate::tally::{
    all_colors, all_same, append_colors, append_from, colors_of, count, count_all, count_in,
    is_all, lemma_colors_of_are_colors, lemma_count_all_of_empties, lemma_count_all_update,
    lemma_count_concat, lemma_count_empty, lemma_count_filter, lemma_count_push,
    lemma_count_split,
};
use crate::tile::{GameError, PlayerColor, Tile};
use crate::wall::{
    column_of, empty_grid, grid_of, grid_wf, lemma_bonus_bound, lemma_empty_grid,
    lemma_place_counts, lemma_score_bound, lemma_wall_count_bound, occupied, placement_score,
    wall_accepts, wall_bonus, wall_count, wall_place, wall_tiles, Grid, Wall,
};

verus! {

/// What a board holds.
#[verifier::ext_equal]
pub struct PlayerView {
    pub color: PlayerColor,
    pub points: nat,
    pub wall: Grid,
    pub lines: Seq<Seq<Tile>>,
    pub floor: Seq<Tile>,
}

/// A score with a penalty applied; it does not fall below zero.
pub open spec fn clamped(points: int) -> nat {
    if points < 0 {
        0
    } else {
        points as nat
    }
}

impl PlayerView {
    /// The board at the start of a game.
    pub open spec fn fresh(color: PlayerColor) -> PlayerView {
        PlayerView {
            color,
            points: 0,
            wall: empty_grid(),
            lines: empty_lines(),
            floor: Seq::empty(),
        }
    }

    /// The parts are well formed, the score is what the tiles on the wall
    /// can have earned, and the colour that a row collects is not yet on the
    /// wall in that row.
    pub open spec fn wf(self) -> bool {
        &&& grid_wf(self.wall)
        &&& lines_wf(self.lines)
        &&& floor_wf(self.floor)
        &&& self.points <= 10 * wall_tiles(self.wall)
        &&& forall|r: int|
            0 <= r < 5 && (#[trigger] self.lines[r]).len() > 0 ==> !occupied(
                self.wall,
                r,
                column_of(r, self.lines[r][0]),
            )
    }

    /// The number of tiles `t` on the board.
    pub open spec fn count(self, t: Tile) -> nat {
        count_all(self.lines, t) + count(self.floor, t) + wall_count(self.wall, t)
    }

    /// Whether row `row` may collect `color`: the row takes the colour,
    /// and the wall does not hold it in that row yet.
    pub open spec fn takes(self, row: int, color: Tile) -> bool {
        line_accepts(self.lines, row, color) && wall_accepts(self.wall, row, color)
    }

    /// Whether `tiles` may go to row `row` as tiles of `color`: the row may
    /// collect the colour, and the tiles are of it.
    pub open spec fn accepts(self, row: int, color: Tile, tiles: Seq<Tile>) -> bool {
        self.takes(row, color) && all_same(tiles, color)
    }

    /// The board after `tiles` went to row `row`: the row takes what it has
    /// room for, the floor line what it has room for of the rest.
    pub open spec fn place(self, row: int, tiles: Seq<Tile>) -> PlayerView {
        let kept = line_kept(self.lines, row, tiles.len()) as int;
        PlayerView {
            lines: lines_add(self.lines, row, tiles),
            floor: floor_add_all(self.floor, tiles.skip(kept)),
            ..self
        }
    }

    /// The tiles that neither the row nor the floor line had room for.
    pub open spec fn place_discards(self, row: int, tiles: Seq<Tile>) -> Seq<Tile> {
        let kept = line_kept(self.lines, row, tiles.len()) as int;
        floor_excess(self.floor, tiles.skip(kept))
    }

    /// The board after `tiles` went to the floor line.
    pub open spec fn floor_only(self, tiles: Seq<Tile>) -> PlayerView {
        PlayerView { floor: floor_add_all(self.floor, tiles), ..self }
    }

    /// The board after row `row`, if it is full, gave one tile to the wall
    /// and was emptied.
    pub open spec fn tile_row(self, row: int) -> PlayerView {
        if line_full(self.lines, row) {
            let color = self.lines[row][0];
            let wall = wall_place(self.wall, row, color);
            PlayerView {
                wall,
                points: self.points + placement_score(wall, row, column_of(row, color)),
                lines: self.lines.update(row, Seq::empty()),
                ..self
            }
        } else {
            self
        }
    }

    /// The tiles that row `row` gives to the lid: all but the one set.
    pub open spec fn tile_row_discards(self, row: int) -> Seq<Tile> {
        if line_full(self.lines, row) {
            self.lines[row].skip(1)
        } else {
            Seq::empty()
        }
    }

    /// The board after the first `upto` rows were tiled, top row first.
    pub open spec fn tile_rows(self, upto: int) -> PlayerView
        decreases upto,
    {
        if upto <= 0 {
            self
        } else {
            self.tile_rows(upto - 1).tile_row(upto - 1)
        }
    }

    /// The tiles that the first `upto` rows give to the lid.
    pub open spec fn tile_rows_discards(self, upto: int) -> Seq<Tile>
        decreases upto,
    {
        if upto <= 0 {
            Seq::empty()
        } else {
            self.tile_rows_discards(upto - 1) + self.tile_rows(upto - 1).tile_row_discards(
                upto - 1,
            )
        }
    }

    /// The board after the floor line was paid for and emptied.
    pub open spec fn settle_floor(self) -> PlayerView {
        PlayerView {
            points: clamped(self.points + floor_penalty(self.floor.len())),
            floor: Seq::empty(),
            ..self
        }
    }

    /// The board at the end of a round: the full rows tiled, the floor line
    /// paid for once.
    pub open spec fn tiled(self) -> PlayerView {
        self.tile_rows(5).settle_floor()
    }

    /// The tiles that the board gives to the lid at the end of a round.
    pub open spec fn tiled_discards(self) -> Seq<Tile> {
        self.tile_rows_discards(5) + colors_of(self.floor)
    }

    /// The score with the bonus of the wall added.
    pub open spec fn final_score(self) -> nat {
        self.points + wall_bonus(self.wall)
    }
}

/// The board that plain values describe.
pub open spec fn board_of(
    color: PlayerColor,
    points: u32,
    cells: [[Option<Tile>; 5]; 5],
    rows: Seq<Vec<Tile>>,
    floor: Seq<Tile>,
) -> PlayerView {
    PlayerView {
        color,
        points: points as nat,
        wall: grid_of(cells),
        lines: rows_of(rows),
        floor,
    }
}

/// A fresh board is well formed and holds no tile.
pub proof fn lemma_fresh(color: PlayerColor, t: Tile)
    ensures
        PlayerView::fresh(color).wf(),
        PlayerView::fresh(color).count(t) == 0,
{
    lemma_empty_grid(t);
    lemma_count_all_of_empties(empty_lines(), t);
    lemma_count_empty(t);
}

/// What the floor line keeps and what it hands back make up what it was
/// offered.
pub proof fn lemma_floor_add_all(floor: Seq<Tile>, tiles: Seq<Tile>, t: Tile)
    requires
        floor_wf(floor),
    ensures
        floor_wf(floor_add_all(floor, tiles)),
        count(floor_add_all(floor, tiles), t) + count(floor_excess(floor, tiles), t) == count(
            floor,
            t,
        ) + count(tiles, t),
{
    let kept = floor_kept(floor, tiles.len()) as int;
    lemma_count_concat(floor, tiles.take(kept), t);
    lemma_count_split(tiles, kept, t);
}

/// A legal placement keeps the board well formed, and every tile offered is
/// on the board or among the tiles handed back.
pub proof fn lemma_place(view: PlayerView, row: int, color: Tile, tiles: Seq<Tile>, t: Tile)
    requires
        view.wf(),
        view.accepts(row, color, tiles),
    ensures
        view.place(row, tiles).wf(),
        view.place(row, tiles).count(t) + count(view.place_discards(row, tiles), t) == view.count(
            t,
        ) + count(tiles, t),
        all_same(view.place_discards(row, tiles), color),
{
    let kept = line_kept(view.lines, row, tiles.len()) as int;
    let after = view.place(row, tiles);
    lemma_lines_add_wf(view.lines, row, color, tiles);
    lemma_lines_add_count(view.lines, row, tiles, t);
    lemma_floor_add_all(view.floor, tiles.skip(kept), t);
    lemma_count_split(tiles, kept, t);
    assert forall|r: int| 0 <= r < 5 && (#[trigger] after.lines[r]).len() > 0 implies !occupied(
        after.wall,
        r,
        column_of(r, after.lines[r][0]),
    ) by {
        if r != row {
            assert(after.lines[r] == view.lines[r]);
        }
    }
}

/// Tiles sent to the floor line keep the board well formed, and every tile
/// offered is on the board or among the tiles handed back.
pub proof fn lemma_floor_only(view: PlayerView, tiles: Seq<Tile>, t: Tile)
    requires
        view.wf(),
    ensures
        view.floor_only(tiles).wf(),
        view.floor_only(tiles).count(t) + count(floor_excess(view.floor, tiles), t) == view.count(
            t,
        ) + count(tiles, t),
{
    lemma_floor_add_all(view.floor, tiles, t);
}

/// Tiling a row keeps the board well formed and loses no tile: what leaves
/// the row is on the wall or among the tiles for the lid.
pub proof fn lemma_tile_row(view: PlayerView, row: int, t: Tile)
    requires
        view.wf(),
        0 <= row < 5,
    ensures
        view.tile_row(row).wf(),
        view.tile_row(row).count(t) + count(view.tile_row_discards(row), t) == view.count(t),
        view.tile_row(row).floor == view.floor,
        view.tile_row(row).color == view.color,
        all_colors(view.tile_row_discards(row)),
        view.points <= view.tile_row(row).points,
{
    if line_full(view.lines, row) {
        let line = view.lines[row];
        let color = line[0];
        let after = view.tile_row(row);
        assert(line_wf(line, row));
        lemma_place_counts(view.wall, row, color, t);
        lemma_place_counts(view.wall, row, color, Tile::Blue);
        lemma_place_counts(view.wall, row, color, Tile::Yellow);
        lemma_place_counts(view.wall, row, color, Tile::Red);
        lemma_place_counts(view.wall, row, color, Tile::Black);
        lemma_place_counts(view.wall, row, color, Tile::Teal);
        lemma_score_bound(after.wall, row, column_of(row, color));
        lemma_count_all_update(view.lines, row, Seq::empty(), t);
        lemma_count_empty(t);
        lemma_count_split(line, 1, t);
        assert(line.take(1) =~= Seq::<Tile>::empty().push(color));
        lemma_count_push(Seq::<Tile>::empty(), color, t);
        assert forall|r: int| 0 <= r < 5 implies line_wf(#[trigger] after.lines[r], r) by {
            if r != row {
                assert(line_wf(view.lines[r], r));
            }
        }
        assert forall|r: int|
            0 <= r < 5 && (#[trigger] after.lines[r]).len() > 0 implies !occupied(
            after.wall,
            r,
            column_of(r, after.lines[r][0]),
        ) by {
            assert(after.lines[r] == view.lines[r]);
            assert(after.wall[r] == view.wall[r]);
        }
        assert forall|i: int| 0 <= i < line.skip(1).len() implies (#[trigger] line.skip(
            1,
        )[i]).is_color() by {
            assert(line.skip(1)[i] == line[i + 1]);
        }
    } else {
        lemma_count_empty(t);
    }
}

/// Paying for the floor line takes the penalty from the score, and leaves
/// a score that the penalty exceeds at zero, not below.
pub proof fn lemma_settle_floor(view: PlayerView)
    ensures
        view.settle_floor().points >= 0,
        view.settle_floor().points <= view.points,
        view.points + floor_penalty(view.floor.len()) >= 0 ==> view.settle_floor().points
            == view.points + floor_penalty(view.floor.len()),
        view.points + floor_penalty(view.floor.len()) < 0 ==> view.settle_floor().points == 0,
{
    lemma_penalty_monotone(0, view.floor.len());
}

/// Tiling rows keeps the board well formed and loses no tile.
pub proof fn lemma_tile_rows(view: PlayerView, upto: int, t: Tile)
    requires
        view.wf(),
        0 <= upto <= 5,
    ensures
        view.tile_rows(upto).wf(),
        view.tile_rows(upto).count(t) + count(view.tile_rows_discards(upto), t) == view.count(t),
        view.tile_rows(upto).floor == view.floor,
        view.tile_rows(upto).color == view.color,
        all_colors(view.tile_rows_discards(upto)),
        view.points <= view.tile_rows(upto).points,
    decreases upto,
{
    if upto <= 0 {
        lemma_count_empty(t);
    } else {
        lemma_tile_rows(view, upto - 1, t);
        let before = view.tile_rows(upto - 1);
        lemma_tile_row(before, upto - 1, t);
        lemma_count_concat(
            view.tile_rows_discards(upto - 1),
            before.tile_row_discards(upto - 1),
            t,
        );
    }
}

/// The end of a round keeps the board well formed and loses no playable
/// tile: each is still on the board or among the tiles for the lid, which
/// are playable tiles only.
pub proof fn lemma_tiled(view: PlayerView, t: Tile)
    requires
        view.wf(),
    ensures
        view.tiled().wf(),
        t.is_color() ==> view.tiled().count(t) + count(view.tiled_discards(), t) == view.count(t),
        all_colors(view.tiled_discards()),
        view.tiled().color == view.color,
        view.tiled().floor.len() == 0,
{
    lemma_tile_rows(view, 5, t);
    let rows = view.tile_rows(5);
    lemma_settle_floor(rows);
    lemma_count_concat(view.tile_rows_discards(5), colors_of(view.floor), t);
    lemma_count_filter(view.floor, |x: Tile| x.is_color(), t);
    lemma_colors_of_are_colors(view.floor);
    lemma_count_empty(t);
}

/// A player's board.
#[derive(Debug)]
pub struct Player {
    color: PlayerColor,
    points: u32,
    wall: Wall,
    pattern_lines: PatternLines,
    floor_line: FloorLine,
}

impl Clone for Player {
    fn clone(&self) -> (copy: Self)
        ensures
            copy@ == self@,
    {
        Player {
            color: self.color,
            points: self.points,
            wall: self.wall,
            pattern_lines: self.pattern_lines.clone(),
            floor_line: self.floor_line.clone(),
        }
    }
}

impl Player {
    pub closed spec fn view(&self) -> PlayerView {
        PlayerView {
            color: self.color,
            points: self.points as nat,
            wall: self.wall@,
            lines: self.pattern_lines@,
            floor: self.floor_line@,
        }
    }

    pub open spec fn wf(&self) -> bool {
        self@.wf()
    }

    /// The board of the player in the seat of the given colour, at the
    /// start of a game: no tiles, no points.
    pub fn new(color: PlayerColor) -> (player: Self)
        ensures
            player@ == PlayerView::fresh(color),
            player.wf(),
    {
        proof {
            lemma_fresh(color, Tile::Blue);
        }
        Player {
            color,
            points: 0,
            wall: Wall::new(),
            pattern_lines: PatternLines::new(),
            floor_line: FloorLine::new(),
        }
    }

    /// The board that holds the given parts, if they make up a well-formed
    /// board.
    pub fn from_parts(
        color: PlayerColor,
        points: u32,
        cells: [[Option<Tile>; 5]; 5],
        rows: Vec<Vec<Tile>>,
        floor: Vec<Tile>,
    ) -> (player: Option<Self>)
        ensures
            player is Some <==> board_of(color, points, cells, rows@, floor@).wf(),
            player matches Some(p) ==> p@ == board_of(color, points, cells, rows@, floor@),
    {
        let ghost view = board_of(color, points, cells, rows@, floor@);
        let wall = match Wall::from_cells(cells) {
            Some(wall) => wall,
            None => {
                return None;
            },
        };
        let pattern_lines = match PatternLines::from_rows(rows) {
            Some(lines) => lines,
            None => {
                return None;
            },
        };
        let floor_line = match FloorLine::from_tiles(floor) {
            Some(floor) => floor,
            None => {
                return None;
            },
        };
        if points as usize > 10 * wall.tiles() {
            return None;
        }
        let mut row: usize = 0;
        while row < 5
            invariant
                row <= 5,
                view == board_of(color, points, cells, rows@, floor@),
                wall@ == view.wall,
                pattern_lines@ == view.lines,
                lines_wf(view.lines),
                forall|r: int|
                    0 <= r < row && (#[trigger] view.lines[r]).len() > 0 ==> !occupied(
                        view.wall,
                        r,
                        column_of(r, view.lines[r][0]),
                    ),
            decreases 5 - row,
        {
            match pattern_lines.line_color(row) {
                Some(held) => {
                    if wall.is_occupied(row, Wall::column_for(row, held)) {
                        assert(view.lines[row as int].len() > 0 && occupied(
                            view.wall,
                            row as int,
                            column_of(row as int, view.lines[row as int][0]),
                        ));
                        return None;
                    }
                },
                None => {},
            }
            row += 1;
        }
        Some(Player { color, points, wall, pattern_lines, floor_line })
    }

    pub fn color(&self) -> (color: PlayerColor)
        ensures
            color == self@.color,
    {
        self.color
    }

    pub fn points(&self) -> (points: u32)
        ensures
            points == self@.points,
    {
        self.points
    }

    pub fn wall(&self) -> (wall: &Wall)
        ensures
            wall@ == self@.wall,
    {
        &self.wall
    }

    pub fn pattern_lines(&self) -> (lines: &PatternLines)
        ensures
            lines@ == self@.lines,
    {
        &self.pattern_lines
    }

    pub fn floor_line(&self) -> (floor: &FloorLine)
        ensures
            floor@ == self@.floor,
    {
        &self.floor_line
    }

    /// Whether row `line_index` may collect `color`.
    pub fn takes(&self, line_index: usize, color: Tile) -> (b: bool)
        ensures
            b == self@.takes(line_index as int, color),
    {
        self.pattern_lines.accepts(line_index, color) && self.wall.accepts(line_index, color)
    }

    /// Whether `tiles` may go to row `line_index` as tiles of `color`.
    pub fn accepts(&self, line_index: usize, color: Tile, tiles: &Vec<Tile>) -> (b: bool)
        ensures
            b == self@.accepts(line_index as int, color, tiles@),
    {
        self.takes(line_index, color) && is_all(tiles, color)
    }

    /// Puts `tiles`, all of `color`, into row `line_index`. What the row
    /// has no room for goes to the floor line; what the floor line has no
    /// room for is returned, for the lid. A row that cannot take the tiles
    /// leaves the board as it is.
    pub fn place(&mut self, line_index: usize, color: Tile, tiles: Vec<Tile>) -> (discards: Result<
        Vec<Tile>,
        GameError,
    >)
        requires
            old(self).wf(),
        ensures
            match discards {
                Ok(d) => {
                    &&& old(self)@.accepts(line_index as int, color, tiles@)
                    &&& final(self)@ == old(self)@.place(line_index as int, tiles@)
                    &&& d@ == old(self)@.place_discards(line_index as int, tiles@)
                },
                Err(e) => {
                    &&& !old(self)@.accepts(line_index as int, color, tiles@)
                    &&& e == GameError::IllegalPlacement
                    &&& final(self)@ == old(self)@
                },
            },
            final(self).wf(),
    {
        if !self.accepts(line_index, color, &tiles) {
            return Err(GameError::IllegalPlacement);
        }
        Ok(self.put(line_index, color, &tiles))
    }

    /// Puts tiles that row `row` accepts into it, the rest on the floor
    /// line, and returns what is left over.
    pub(crate) fn put(&mut self, row: usize, color: Tile, tiles: &Vec<Tile>) -> (discards: Vec<
        Tile,
    >)
        requires
            old(self).wf(),
            old(self)@.accepts(row as int, color, tiles@),
        ensures
            final(self)@ == old(self)@.place(row as int, tiles@),
            discards@ == old(self)@.place_discards(row as int, tiles@),
            final(self).wf(),
    {
        let kept = self.pattern_lines.fill(row, tiles);
        let discards = self.floor_line.add_from(tiles, kept);
        proof {
            lemma_place(old(self)@, row as int, color, tiles@, color);
        }
        discards
    }

    /// Puts `tiles` on the floor line and returns those for which it has no
    /// slot left, for the lid.
    pub fn place_to_floor_only(&mut self, tiles: Vec<Tile>) -> (discards: Vec<Tile>)
        requires
            old(self).wf(),
        ensures
            final(self)@ == old(self)@.floor_only(tiles@),
            discards@ == floor_excess(old(self)@.floor, tiles@),
            final(self).wf(),
    {
        let discards = self.floor_line.add_all(&tiles);
        proof {
            lemma_floor_only(old(self)@, tiles@, Tile::Blue);
        }
        discards
    }

    /// Tiles row `row` if it is full: one tile goes to the wall and earns
    /// its points, the others join `discards`.
    fn tile_row(&mut self, row: usize, discards: &mut Vec<Tile>)
        requires
            old(self).wf(),
            row < 5,
        ensures
            final(self)@ == old(self)@.tile_row(row as int),
            final(discards)@ == old(discards)@ + old(self)@.tile_row_discards(row as int),
            final(self).wf(),
    {
        proof {
            lemma_tile_row(old(self)@, row as int, Tile::Blue);
            lemma_wall_count_bound(old(self)@.wall, Tile::Blue);
        }
        if self.pattern_lines.is_full(row) {
            let tiles = self.pattern_lines.clear_row(row);
            let color = tiles[0];
            match self.wall.place(row, color) {
                Ok(gained) => {
                    self.points = self.points + gained;
                },
                Err(_) => {
                    // On a well-formed board the cell for the colour of a
                    // row is free as long as the row holds tiles.
                    assert(false);
                },
            }
            append_from(discards, &tiles, 1);
        } else {
            assert(discards@ + Seq::<Tile>::empty() =~= discards@);
        }
    }

    /// Ends the round for this board: tiles the full rows from the top
    /// down, then pays for the floor line and empties it. Returns the tiles
    /// that go to the lid.
    pub fn tile_wall(&mut self) -> (discards: Vec<Tile>)
        requires
            old(self).wf(),
        ensures
            final(self)@ == old(self)@.tiled(),
            discards@ == old(self)@.tiled_discards(),
            final(self).wf(),
    {
        let mut discards: Vec<Tile> = Vec::new();
        let mut row: usize = 0;
        while row < 5
            invariant
                row <= 5,
                old(self).wf(),
                self.wf(),
                self@ == old(self)@.tile_rows(row as int),
                discards@ == old(self)@.tile_rows_discards(row as int),
            decreases 5 - row,
        {
            self.tile_row(row, &mut discards);
            row += 1;
        }
        proof {
            lemma_tile_rows(old(self)@, 5, Tile::Blue);
            lemma_tiled(old(self)@, Tile::Blue);
        }
        let penalty = self.floor_line.points();
        let loss: u32 = (-penalty) as u32;
        self.points = if self.points >= loss {
            self.points - loss
        } else {
            0
        };
        let floor = self.floor_line.clear();
        append_colors(&mut discards, &floor);
        discards
    }

    /// The score with the bonus of the wall added.
    pub fn final_score(&self) -> (score: u32)
        requires
            self.wf(),
        ensures
            score == self@.final_score(),
    {
        proof {
            lemma_bonus_bound(self@.wall);
            lemma_wall_count_bound(self@.wall, Tile::Blue);
        }
        self.points + self.wall.bonus()
    }

    /// The number of tiles of `color` on the board.
    pub fn count(&self, color: Tile) -> (n: usize)
        requires
            self.wf(),
        ensures
            n == self@.count(color),
            n <= 37,
    {
        self.pattern_lines.count(color) + count_in(&self.floor_line.tiles(), color)
            + self.wall.count(color)
    }
}

} // verus!
