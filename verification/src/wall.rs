//! The wall: a grid of five rows and five columns in which every cell takes
//! one colour only, and the points that a tile earns when it is set.

use vstd::prelude::*;
use crate::tile::{GameError, Tile};

verus! {

/// The cells of a wall, row by row.
pub type Grid = Seq<Seq<Option<Tile>>>;

/// The colour that the cell in row `row` and column `col` takes: each row
/// is the row above it, moved one cell to the right.
pub open spec fn pattern(row: int, col: int) -> Tile {
    Tile::color((col - row + 5) % 5)
}

/// The column in which row `row` takes `color`.
pub open spec fn column_of(row: int, color: Tile) -> int {
    (color.ordinal() + row) % 5
}

pub open spec fn in_grid(row: int, col: int) -> bool {
    0 <= row < 5 && 0 <= col < 5
}

/// Five rows of five cells, each cell empty or of the colour of its place.
pub open spec fn grid_wf(grid: Grid) -> bool {
    &&& grid.len() == 5
    &&& forall|r: int| 0 <= r < 5 ==> (#[trigger] grid[r]).len() == 5
    &&& forall|r: int, c: int|
        in_grid(r, c) ==> (#[trigger] grid[r][c] is None || grid[r][c] == Some(pattern(r, c)))
}

/// The grid that an array of cells describes.
pub open spec fn grid_of(cells: [[Option<Tile>; 5]; 5]) -> Grid {
    Seq::new(5, |r: int| cells[r]@)
}

pub open spec fn empty_grid() -> Grid {
    Seq::new(5, |r: int| Seq::new(5, |c: int| None::<Tile>))
}

pub open spec fn occupied(grid: Grid, row: int, col: int) -> bool {
    in_grid(row, col) && grid[row][col] is Some
}

/// Which cells of a row hold a tile.
pub open spec fn row_flags(grid: Grid, row: int) -> Seq<bool> {
    Seq::new(5, |c: int| occupied(grid, row, c))
}

/// Which cells of a column hold a tile.
pub open spec fn col_flags(grid: Grid, col: int) -> Seq<bool> {
    Seq::new(5, |r: int| occupied(grid, r, col))
}

/// How many set flags stand in an unbroken run right before position `i`.
pub open spec fn run_before(line: Seq<bool>, i: int) -> nat
    decreases i,
{
    if 0 < i < line.len() && line[i - 1] {
        1 + run_before(line, i - 1)
    } else {
        0
    }
}

/// How many set flags stand in an unbroken run right after position `i`.
pub open spec fn run_after(line: Seq<bool>, i: int) -> nat
    decreases line.len() - i,
{
    if 0 <= i < line.len() - 1 && line[i + 1] {
        1 + run_after(line, i + 1)
    } else {
        0
    }
}

/// The length of the unbroken run of flags through position `i`, the
/// position itself counted.
pub open spec fn span(line: Seq<bool>, i: int) -> nat {
    1 + run_before(line, i) + run_after(line, i)
}

/// The points for a tile set at (`row`, `col`): both runs where each joins a
/// neighbour, the one run that does, or one point for a tile that stands
/// alone.
pub open spec fn placement_score(grid: Grid, row: int, col: int) -> nat {
    let h = span(row_flags(grid, row), col);
    let v = span(col_flags(grid, col), row);
    if h >= 2 && v >= 2 {
        h + v
    } else if h >= 2 {
        h
    } else if v >= 2 {
        v
    } else {
        1
    }
}

/// The wall after `color` was set in row `row`.
pub open spec fn wall_place(grid: Grid, row: int, color: Tile) -> Grid {
    grid.update(row, grid[row].update(column_of(row, color), Some(color)))
}

/// Whether row `row` can take `color`: the row exists, the colour is
/// playable, and its cell is empty.
pub open spec fn wall_accepts(grid: Grid, row: int, color: Tile) -> bool {
    0 <= row < 5 && color.is_color() && !occupied(grid, row, column_of(row, color))
}

pub open spec fn row_full(grid: Grid, row: int) -> bool {
    forall|c: int| 0 <= c < 5 ==> occupied(grid, row, c)
}

pub open spec fn col_full(grid: Grid, col: int) -> bool {
    forall|r: int| 0 <= r < 5 ==> occupied(grid, r, col)
}

/// Whether `color` stands in every row.
pub open spec fn color_full(grid: Grid, color: Tile) -> bool {
    forall|r: int| 0 <= r < 5 ==> occupied(grid, r, column_of(r, color))
}

pub open spec fn flag(b: bool) -> nat {
    if b {
        1
    } else {
        0
    }
}

/// The number of full rows among the first `upto` rows.
pub open spec fn full_rows_below(grid: Grid, upto: int) -> nat
    decreases upto,
{
    if upto <= 0 {
        0
    } else {
        full_rows_below(grid, upto - 1) + flag(row_full(grid, upto - 1))
    }
}

/// The number of full columns among the first `upto` columns.
pub open spec fn full_cols_below(grid: Grid, upto: int) -> nat
    decreases upto,
{
    if upto <= 0 {
        0
    } else {
        full_cols_below(grid, upto - 1) + flag(col_full(grid, upto - 1))
    }
}

/// The number of colours, among the first `upto`, that stand in every row.
pub open spec fn full_colors_below(grid: Grid, upto: int) -> nat
    decreases upto,
{
    if upto <= 0 {
        0
    } else {
        full_colors_below(grid, upto - 1) + flag(color_full(grid, Tile::color(upto - 1)))
    }
}

pub open spec fn full_rows(grid: Grid) -> nat {
    full_rows_below(grid, 5)
}

pub open spec fn full_cols(grid: Grid) -> nat {
    full_cols_below(grid, 5)
}

pub open spec fn full_colors(grid: Grid) -> nat {
    full_colors_below(grid, 5)
}

/// The points added at the end of the game: two for each full row, seven for
/// each full column, ten for each colour that stands in every row.
pub open spec fn wall_bonus(grid: Grid) -> nat {
    2 * full_rows(grid) + 7 * full_cols(grid) + 10 * full_colors(grid)
}

/// The number of rows, among the first `upto`, in which `color` stands.
pub open spec fn wall_count_below(grid: Grid, color: Tile, upto: int) -> nat
    decreases upto,
{
    if upto <= 0 {
        0
    } else {
        wall_count_below(grid, color, upto - 1) + flag(
            grid[upto - 1][column_of(upto - 1, color)] == Some(color),
        )
    }
}

/// The number of tiles of `color` on the wall. Each row has one cell for it.
pub open spec fn wall_count(grid: Grid, color: Tile) -> nat {
    wall_count_below(grid, color, 5)
}

/// The number of tiles on the wall.
pub open spec fn wall_tiles(grid: Grid) -> nat {
    wall_count(grid, Tile::Blue) + wall_count(grid, Tile::Yellow) + wall_count(grid, Tile::Red)
        + wall_count(grid, Tile::Black) + wall_count(grid, Tile::Teal)
}

/// A colour has its own cell in each row, and no other colour shares it.
pub proof fn lemma_pattern_column(row: int, color: Tile)
    requires
        0 <= row < 5,
        color.is_color(),
    ensures
        0 <= column_of(row, color) < 5,
        pattern(row, column_of(row, color)) == color,
        forall|c: int| 0 <= c < 5 && pattern(row, c) == color ==> c == column_of(row, color),
        forall|r: int|
            0 <= r < 5 && column_of(r, color) == column_of(row, color) ==> r == row,
{
}

/// On a well-formed wall no row and no column holds a colour twice.
pub proof fn lemma_no_color_twice(grid: Grid)
    requires
        grid_wf(grid),
    ensures
        forall|r: int, c1: int, c2: int|
            in_grid(r, c1) && in_grid(r, c2) && c1 != c2 && occupied(grid, r, c1) ==> (
            #[trigger] grid[r][c1]) != (#[trigger] grid[r][c2]),
        forall|r1: int, r2: int, c: int|
            in_grid(r1, c) && in_grid(r2, c) && r1 != r2 && occupied(grid, r1, c) ==> (
            #[trigger] grid[r1][c]) != (#[trigger] grid[r2][c]),
{
    assert forall|r: int, c1: int, c2: int|
        in_grid(r, c1) && in_grid(r, c2) && c1 != c2 && occupied(grid, r, c1) implies (
    #[trigger] grid[r][c1]) != (#[trigger] grid[r][c2]) by {
        assert(grid[r][c1] == Some(pattern(r, c1)));
        assert(grid[r][c2] is None || grid[r][c2] == Some(pattern(r, c2)));
        assert(pattern(r, c1) != pattern(r, c2));
    }
    assert forall|r1: int, r2: int, c: int|
        in_grid(r1, c) && in_grid(r2, c) && r1 != r2 && occupied(grid, r1, c) implies (
    #[trigger] grid[r1][c]) != (#[trigger] grid[r2][c]) by {
        assert(grid[r1][c] == Some(pattern(r1, c)));
        assert(grid[r2][c] is None || grid[r2][c] == Some(pattern(r2, c)));
        assert(pattern(r1, c) != pattern(r2, c));
    }
}

/// A run reaches no further than the end of its line.
pub proof fn lemma_span_bound(line: Seq<bool>, i: int)
    requires
        0 <= i < line.len(),
    ensures
        run_before(line, i) <= i,
        run_after(line, i) <= line.len() - 1 - i,
        1 <= span(line, i) <= line.len(),
{
    lemma_run_before_bound(line, i);
    lemma_run_after_bound(line, i);
}

proof fn lemma_run_before_bound(line: Seq<bool>, i: int)
    requires
        0 <= i <= line.len(),
    ensures
        run_before(line, i) <= i,
    decreases i,
{
    if 0 < i && line[i - 1] {
        lemma_run_before_bound(line, i - 1);
    }
}

proof fn lemma_run_after_bound(line: Seq<bool>, i: int)
    requires
        0 <= i < line.len(),
    ensures
        run_after(line, i) <= line.len() - 1 - i,
    decreases line.len() - i,
{
    if i < line.len() - 1 && line[i + 1] {
        lemma_run_after_bound(line, i + 1);
    }
}

/// A tile earns between one and ten points.
pub proof fn lemma_score_bound(grid: Grid, row: int, col: int)
    requires
        in_grid(row, col),
    ensures
        1 <= placement_score(grid, row, col) <= 10,
{
    lemma_span_bound(row_flags(grid, row), col);
    lemma_span_bound(col_flags(grid, col), row);
}

/// The bonus of a wall is 95 points at most.
pub proof fn lemma_bonus_bound(grid: Grid)
    ensures
        full_rows(grid) <= 5,
        full_cols(grid) <= 5,
        full_colors(grid) <= 5,
        wall_bonus(grid) <= 95,
{
    reveal_with_fuel(full_rows_below, 6);
    reveal_with_fuel(full_cols_below, 6);
    reveal_with_fuel(full_colors_below, 6);
}

/// Setting a tile changes, in each row, only what the row holds of the
/// tile's colour.
proof fn lemma_place_cell(grid: Grid, row: int, color: Tile, r: int, other: Tile)
    requires
        grid_wf(grid),
        wall_accepts(grid, row, color),
        0 <= r < 5,
    ensures
        (wall_place(grid, row, color)[r][column_of(r, other)] == Some(other)) == (grid[r][column_of(
            r,
            other,
        )] == Some(other) || (r == row && other == color)),
{
    let after = wall_place(grid, row, color);
    let c = column_of(r, other);
    assert(0 <= c < 5);
    assert(grid[row].len() == 5);
    if r == row {
        if c == column_of(row, color) {
            assert(grid[r][c] is None);
            assert(after[r][c] == Some(color));
        } else {
            assert(after[r][c] == grid[r][c]);
        }
    } else {
        assert(after[r] == grid[r]);
    }
}

proof fn lemma_place_count_below(grid: Grid, row: int, color: Tile, other: Tile, upto: int)
    requires
        grid_wf(grid),
        wall_accepts(grid, row, color),
        0 <= upto <= 5,
    ensures
        wall_count_below(wall_place(grid, row, color), other, upto) == wall_count_below(
            grid,
            other,
            upto,
        ) + flag(other == color && row < upto),
    decreases upto,
{
    if upto > 0 {
        lemma_place_count_below(grid, row, color, other, upto - 1);
        lemma_place_cell(grid, row, color, upto - 1, other);
    }
}

/// Setting a tile keeps the wall well formed.
pub proof fn lemma_place_wf(grid: Grid, row: int, color: Tile)
    requires
        grid_wf(grid),
        wall_accepts(grid, row, color),
    ensures
        grid_wf(wall_place(grid, row, color)),
{
    let after = wall_place(grid, row, color);
    lemma_pattern_column(row, color);
    assert(grid[row].len() == 5);
    assert forall|r: int| 0 <= r < 5 implies (#[trigger] after[r]).len() == 5 by {
        if r != row {
            assert(after[r] == grid[r]);
        }
    }
    assert forall|r: int, c: int| in_grid(r, c) implies (#[trigger] after[r][c] is None
        || after[r][c] == Some(pattern(r, c))) by {
        if r != row {
            assert(after[r] == grid[r]);
        } else if c != column_of(row, color) {
            assert(after[r][c] == grid[r][c]);
        }
    }
}

/// Setting a tile keeps the wall well formed and adds one tile of its
/// colour, none of another.
pub proof fn lemma_place_counts(grid: Grid, row: int, color: Tile, other: Tile)
    requires
        grid_wf(grid),
        wall_accepts(grid, row, color),
    ensures
        grid_wf(wall_place(grid, row, color)),
        wall_count(wall_place(grid, row, color), other) == wall_count(grid, other) + flag(
            other == color,
        ),
{
    lemma_place_wf(grid, row, color);
    lemma_place_count_below(grid, row, color, other, 5);
}

/// An empty wall is well formed and holds nothing.
pub proof fn lemma_empty_grid(color: Tile)
    ensures
        grid_wf(empty_grid()),
        wall_count(empty_grid(), color) == 0,
        wall_tiles(empty_grid()) == 0,
{
    reveal_with_fuel(wall_count_below, 6);
}

/// A well-formed wall holds at most five tiles of a colour.
pub proof fn lemma_wall_count_bound(grid: Grid, color: Tile)
    ensures
        wall_count(grid, color) <= 5,
        wall_tiles(grid) <= 25,
{
    reveal_with_fuel(wall_count_below, 6);
}

/// The wall of a board: each cell is empty or holds a tile.
#[derive(Clone, Copy, Debug)]
pub struct Wall([[Option<Tile>; 5]; 5]);

impl Default for Wall {
    fn default() -> (wall: Self)
        ensures
            wall@ == empty_grid(),
            wall.wf(),
    {
        Wall::new()
    }
}

impl Wall {
    /// The cells, row by row.
    pub closed spec fn view(&self) -> Grid {
        Seq::new(5, |r: int| self.0[r]@)
    }

    pub open spec fn wf(&self) -> bool {
        grid_wf(self@)
    }

    /// A wall has five rows of five cells.
    pub proof fn lemma_shape(&self)
        ensures
            self@.len() == 5,
            forall|r: int| 0 <= r < 5 ==> (#[trigger] self@[r]).len() == 5,
    {
    }

    /// A wall without tiles.
    pub fn new() -> (wall: Self)
        ensures
            wall@ == empty_grid(),
            wall.wf(),
    {
        let wall = Wall([[None; 5]; 5]);
        proof {
            assert forall|r: int| 0 <= r < 5 implies (#[trigger] wall@[r]) =~= empty_grid()[r] by {}
            assert(wall@ =~= empty_grid());
            lemma_empty_grid(Tile::Blue);
        }
        wall
    }

    /// The wall with the given cells, if each cell is empty or holds the
    /// colour of its place.
    pub fn from_cells(cells: [[Option<Tile>; 5]; 5]) -> (wall: Option<Self>)
        ensures
            wall is Some <==> grid_wf(grid_of(cells)),
            wall matches Some(w) ==> w@ == grid_of(cells) && w.wf(),
    {
        let ghost grid = grid_of(cells);
        let mut row: usize = 0;
        while row < 5
            invariant
                row <= 5,
                grid == grid_of(cells),
                forall|r: int, c: int|
                    0 <= r < row && 0 <= c < 5 ==> (#[trigger] grid[r][c] is None || grid[r][c]
                        == Some(pattern(r, c))),
            decreases 5 - row,
        {
            let mut col: usize = 0;
            while col < 5
                invariant
                    row < 5,
                    col <= 5,
                    grid == grid_of(cells),
                    forall|r: int, c: int|
                        0 <= r < row && 0 <= c < 5 ==> (#[trigger] grid[r][c] is None
                            || grid[r][c] == Some(pattern(r, c))),
                    forall|c: int|
                        0 <= c < col ==> (#[trigger] grid[row as int][c] is None
                            || grid[row as int][c] == Some(pattern(row as int, c))),
                decreases 5 - col,
            {
                match cells[row][col] {
                    Some(t) => {
                        if t != Wall::color_at(row, col) {
                            assert(grid[row as int][col as int] == Some(t));
                            assert(t != pattern(row as int, col as int));
                            return None;
                        }
                    },
                    None => {},
                }
                col += 1;
            }
            row += 1;
        }
        let wall = Wall(cells);
        assert(wall@ =~= grid);
        Some(wall)
    }

    /// The cells, row by row.
    pub fn cells(&self) -> (cells: [[Option<Tile>; 5]; 5])
        ensures
            grid_of(cells) == self@,
    {
        self.0
    }

    /// The number of tiles on the wall.
    pub fn tiles(&self) -> (n: usize)
        ensures
            n == wall_tiles(self@),
            n <= 25,
    {
        self.count(Tile::Blue) + self.count(Tile::Yellow) + self.count(Tile::Red) + self.count(
            Tile::Black,
        ) + self.count(Tile::Teal)
    }

    /// The column in which a row takes a colour.
    pub fn column_for(row: usize, color: Tile) -> (col: usize)
        ensures
            col == column_of(row as int, color),
            col < 5,
    {
        (color.index() + row % 5) % 5
    }

    /// The colour that a cell takes.
    pub fn color_at(row: usize, col: usize) -> (color: Tile)
        ensures
            color == pattern(row as int, col as int),
            color.is_color(),
            in_grid(row as int, col as int) ==> column_of(row as int, color) == col,
    {
        let k: usize = (col % 5 + 5 - row % 5) % 5;
        match Tile::from_index(k) {
            Some(color) => color,
            None => Tile::Teal,
        }
    }

    /// What the cell holds; outside the grid there is nothing.
    pub fn get(&self, row: usize, col: usize) -> (cell: Option<Tile>)
        ensures
            cell == if in_grid(row as int, col as int) {
                self@[row as int][col as int]
            } else {
                None
            },
    {
        if row < 5 && col < 5 {
            self.0[row][col]
        } else {
            None
        }
    }

    pub fn is_occupied(&self, row: usize, col: usize) -> (b: bool)
        ensures
            b == occupied(self@, row as int, col as int),
    {
        row < 5 && col < 5 && self.0[row][col].is_some()
    }

    /// Whether `color` can be set in row `row`.
    pub fn accepts(&self, row: usize, color: Tile) -> (b: bool)
        ensures
            b == wall_accepts(self@, row as int, color),
    {
        row < 5 && color.is_playable() && !self.is_occupied(row, Wall::column_for(row, color))
    }

    /// The length of the run through a cell along its row.
    fn row_span(&self, row: usize, col: usize) -> (n: usize)
        requires
            row < 5,
            col < 5,
        ensures
            n == span(row_flags(self@, row as int), col as int),
            1 <= n <= 5,
    {
        let ghost line = row_flags(self@, row as int);
        let mut left: usize = 0;
        while left < col && self.0[row][col - left - 1].is_some()
            invariant
                left <= col < 5,
                row < 5,
                line == row_flags(self@, row as int),
                run_before(line, col as int) == left + run_before(line, col - left),
            decreases col - left,
        {
            assert(line[col - left - 1]);
            left += 1;
        }
        assert(run_before(line, col - left) == 0) by {
            if left < col {
                assert(!line[col - left - 1]);
            }
        }
        let mut right: usize = 0;
        while col + right + 1 < 5 && self.0[row][col + right + 1].is_some()
            invariant
                col + right < 5,
                row < 5,
                line == row_flags(self@, row as int),
                run_after(line, col as int) == right + run_after(line, col + right),
            decreases 5 - col - right,
        {
            assert(line[col + right + 1]);
            right += 1;
        }
        assert(run_after(line, col + right) == 0) by {
            if col + right + 1 < 5 {
                assert(!line[col + right + 1]);
            }
        }
        proof {
            lemma_span_bound(line, col as int);
        }
        1 + left + right
    }

    /// The length of the run through a cell along its column.
    fn col_span(&self, row: usize, col: usize) -> (n: usize)
        requires
            row < 5,
            col < 5,
        ensures
            n == span(col_flags(self@, col as int), row as int),
            1 <= n <= 5,
    {
        let ghost line = col_flags(self@, col as int);
        let mut up: usize = 0;
        while up < row && self.0[row - up - 1][col].is_some()
            invariant
                up <= row < 5,
                col < 5,
                line == col_flags(self@, col as int),
                run_before(line, row as int) == up + run_before(line, row - up),
            decreases row - up,
        {
            assert(line[row - up - 1]);
            up += 1;
        }
        assert(run_before(line, row - up) == 0) by {
            if up < row {
                assert(!line[row - up - 1]);
            }
        }
        let mut down: usize = 0;
        while row + down + 1 < 5 && self.0[row + down + 1][col].is_some()
            invariant
                row + down < 5,
                col < 5,
                line == col_flags(self@, col as int),
                run_after(line, row as int) == down + run_after(line, row + down),
            decreases 5 - row - down,
        {
            assert(line[row + down + 1]);
            down += 1;
        }
        assert(run_after(line, row + down) == 0) by {
            if row + down + 1 < 5 {
                assert(!line[row + down + 1]);
            }
        }
        proof {
            lemma_span_bound(line, row as int);
        }
        1 + up + down
    }

    /// The points that a tile at (`row`, `col`) earns as the wall stands;
    /// outside the grid a tile has no neighbour.
    pub fn score_at(&self, row: usize, col: usize) -> (points: u32)
        ensures
            points == placement_score(self@, row as int, col as int),
            1 <= points <= 10,
    {
        if row >= 5 || col >= 5 {
            proof {
                let across = row_flags(self@, row as int);
                let down = col_flags(self@, col as int);
                assert(run_before(across, col as int) == 0) by {
                    if 0 < col < 5 {
                        assert(!across[col - 1]);
                    }
                }
                assert(run_before(down, row as int) == 0) by {
                    if 0 < row < 5 {
                        assert(!down[row - 1]);
                    }
                }
                assert(run_after(across, col as int) == 0) by {
                    if col + 1 < 5 {
                        assert(!across[col + 1]);
                    }
                }
                assert(run_after(down, row as int) == 0) by {
                    if row + 1 < 5 {
                        assert(!down[row + 1]);
                    }
                }
            }
            return 1;
        }
        let h = self.row_span(row, col);
        let v = self.col_span(row, col);
        if h >= 2 && v >= 2 {
            (h + v) as u32
        } else if h >= 2 {
            h as u32
        } else if v >= 2 {
            v as u32
        } else {
            1
        }
    }

    /// Sets a tile of `color` in row `row`, in the cell that the row has
    /// for it, and returns the points that it earns. A row that does not
    /// exist, a tile that is no colour and a cell that is taken are refused,
    /// and the wall stays as it is.
    pub fn place(&mut self, row: usize, color: Tile) -> (points: Result<u32, GameError>)
        ensures
            match points {
                Ok(p) => {
                    &&& wall_accepts(old(self)@, row as int, color)
                    &&& final(self)@ == wall_place(old(self)@, row as int, color)
                    &&& p == placement_score(
                        final(self)@,
                        row as int,
                        column_of(row as int, color),
                    )
                    &&& 1 <= p <= 10
                },
                Err(e) => {
                    &&& !wall_accepts(old(self)@, row as int, color)
                    &&& e == GameError::InternalInconsistency
                    &&& final(self)@ == old(self)@
                },
            },
            old(self).wf() ==> final(self).wf(),
    {
        if !self.accepts(row, color) {
            return Err(GameError::InternalInconsistency);
        }
        let col = Wall::column_for(row, color);
        self.0[row][col] = Some(color);
        proof {
            let want = wall_place(old(self)@, row as int, color);
            assert forall|r: int| 0 <= r < 5 implies (#[trigger] self@[r]) =~= want[r] by {}
            assert(self@ =~= want);
            if old(self).wf() {
                lemma_place_counts(old(self)@, row as int, color, color);
            }
        }
        Ok(self.score_at(row, col))
    }

    fn is_row_full(&self, row: usize) -> (b: bool)
        requires
            row < 5,
        ensures
            b == row_full(self@, row as int),
    {
        self.is_occupied(row, 0) && self.is_occupied(row, 1) && self.is_occupied(row, 2)
            && self.is_occupied(row, 3) && self.is_occupied(row, 4)
    }

    fn is_col_full(&self, col: usize) -> (b: bool)
        requires
            col < 5,
        ensures
            b == col_full(self@, col as int),
    {
        self.is_occupied(0, col) && self.is_occupied(1, col) && self.is_occupied(2, col)
            && self.is_occupied(3, col) && self.is_occupied(4, col)
    }

    fn is_color_full(&self, color: Tile) -> (b: bool)
        ensures
            b == color_full(self@, color),
    {
        self.is_occupied(0, Wall::column_for(0, color)) && self.is_occupied(
            1,
            Wall::column_for(1, color),
        ) && self.is_occupied(2, Wall::column_for(2, color)) && self.is_occupied(
            3,
            Wall::column_for(3, color),
        ) && self.is_occupied(4, Wall::column_for(4, color))
    }

    /// The number of full rows.
    pub fn full_rows(&self) -> (n: usize)
        ensures
            n == full_rows(self@),
            n <= 5,
    {
        let mut n: usize = 0;
        let mut row: usize = 0;
        while row < 5
            invariant
                row <= 5,
                n <= row,
                n == full_rows_below(self@, row as int),
            decreases 5 - row,
        {
            if self.is_row_full(row) {
                n += 1;
            }
            row += 1;
        }
        n
    }

    /// The number of full columns.
    pub fn full_columns(&self) -> (n: usize)
        ensures
            n == full_cols(self@),
            n <= 5,
    {
        let mut n: usize = 0;
        let mut col: usize = 0;
        while col < 5
            invariant
                col <= 5,
                n <= col,
                n == full_cols_below(self@, col as int),
            decreases 5 - col,
        {
            if self.is_col_full(col) {
                n += 1;
            }
            col += 1;
        }
        n
    }

    /// The number of colours that stand in every row.
    pub fn full_colors(&self) -> (n: usize)
        ensures
            n == full_colors(self@),
            n <= 5,
    {
        let mut n: usize = 0;
        let mut k: usize = 0;
        while k < 5
            invariant
                k <= 5,
                n <= k,
                n == full_colors_below(self@, k as int),
            decreases 5 - k,
        {
            match Tile::from_index(k) {
                Some(color) => {
                    if self.is_color_full(color) {
                        n += 1;
                    }
                },
                None => {},
            }
            k += 1;
        }
        n
    }

    /// Whether some row is full, which ends the game.
    pub fn has_full_row(&self) -> (b: bool)
        ensures
            b == (full_rows(self@) > 0),
            b == exists|r: int| 0 <= r < 5 && row_full(self@, r),
    {
        proof {
            reveal_with_fuel(full_rows_below, 6);
        }
        self.full_rows() > 0
    }

    /// The points that the wall adds at the end of the game.
    pub fn bonus(&self) -> (points: u32)
        ensures
            points == wall_bonus(self@),
            points <= 95,
    {
        let rows = self.full_rows();
        let cols = self.full_columns();
        let colors = self.full_colors();
        (2 * rows + 7 * cols + 10 * colors) as u32
    }

    /// The number of tiles of `color` on the wall.
    pub fn count(&self, color: Tile) -> (n: usize)
        ensures
            n == wall_count(self@, color),
            n <= 5,
    {
        let mut n: usize = 0;
        let mut row: usize = 0;
        while row < 5
            invariant
                row <= 5,
                n <= row,
                n == wall_count_below(self@, color, row as int),
            decreases 5 - row,
        {
            match self.0[row][Wall::column_for(row, color)] {
                Some(t) => {
                    if t == color {
                        n += 1;
                    }
                },
                None => {},
            }
            row += 1;
        }
        n
    }
}

} // verus!
