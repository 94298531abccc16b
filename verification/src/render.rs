//! The parts of a game as text, one character for each tile.

use vstd::prelude::*;
use crate::display::{Center, Factory};
use crate::floor::FloorLine;
use crate::lines::PatternLines;
use crate::tile::{PlayerColor, Tile};
use crate::wall::{Grid, Wall};

verus! {

/// `String::push` appends the character to the end of the string.
pub assume_specification[ String::push ](text: &mut String, c: char)
    ensures
        final(text)@ == old(text)@.push(c),
;

/// The character that stands for an empty cell of the wall.
pub const EMPTY_CELL: char = '.';

/// The characters of the tiles, in their order.
pub open spec fn glyphs(tiles: Seq<Tile>) -> Seq<char> {
    Seq::new(tiles.len(), |i: int| tiles[i].glyph())
}

/// The character of a cell of the wall.
pub open spec fn cell_glyph(cell: Option<Tile>) -> char {
    match cell {
        Some(tile) => tile.glyph(),
        None => '.',
    }
}

/// The characters of the first `upto` rows of pattern lines, row after row.
pub open spec fn lines_text(lines: Seq<Seq<Tile>>, upto: int) -> Seq<char>
    decreases upto,
{
    if upto <= 0 {
        Seq::empty()
    } else {
        lines_text(lines, upto - 1) + glyphs(lines[upto - 1])
    }
}

/// The characters of a row of the wall.
pub open spec fn row_text(row: Seq<Option<Tile>>) -> Seq<char> {
    Seq::new(row.len(), |c: int| cell_glyph(row[c]))
}

/// The characters of the first `upto` rows of a wall, row after row.
pub open spec fn wall_text(grid: Grid, upto: int) -> Seq<char>
    decreases upto,
{
    if upto <= 0 {
        Seq::empty()
    } else {
        wall_text(grid, upto - 1) + row_text(grid[upto - 1])
    }
}

/// Appends the characters of the tiles to the text.
pub fn push_tiles(text: &mut String, tiles: &Vec<Tile>)
    ensures
        final(text)@ == old(text)@ + glyphs(tiles@),
{
    let ghost before = text@;
    let mut i: usize = 0;
    assert(text@ =~= before + glyphs(tiles@.take(0)));
    while i < tiles.len()
        invariant
            i <= tiles@.len(),
            text@ == before + glyphs(tiles@.take(i as int)),
        decreases tiles@.len() - i,
    {
        text.push(tiles[i].symbol());
        assert(text@ =~= before + glyphs(tiles@.take(i + 1)));
        i += 1;
    }
    assert(tiles@.take(tiles@.len() as int) =~= tiles@);
}

/// The tiles as text.
pub fn tiles_to_text(tiles: &Vec<Tile>) -> (text: String)
    ensures
        text@ == glyphs(tiles@),
{
    let mut text = String::new();
    push_tiles(&mut text, tiles);
    assert(Seq::<char>::empty() + glyphs(tiles@) =~= glyphs(tiles@));
    text
}

impl PlayerColor {
    /// The seat as text: its number.
    pub fn to_text(&self) -> (text: String)
        ensures
            text@ == Seq::<char>::empty().push(self.glyph()),
    {
        let mut text = String::new();
        text.push(self.symbol());
        text
    }
}

impl Tile {
    /// The tile as text: the letter of its colour, or the digit of the
    /// marker.
    pub fn to_text(&self) -> (text: String)
        ensures
            text@ == Seq::<char>::empty().push(self.glyph()),
    {
        let mut text = String::new();
        text.push(self.symbol());
        text
    }
}

impl Factory {
    /// The tiles on the factory as text.
    pub fn to_text(&self) -> (text: String)
        ensures
            text@ == glyphs(self@),
    {
        tiles_to_text(&self.tiles())
    }
}

impl Center {
    /// What the centre shows as text: the marker, if it lies there, and
    /// the tiles.
    pub fn to_text(&self) -> (text: String)
        ensures
            text@ == glyphs(self@.contents()),
    {
        tiles_to_text(&self.contents())
    }
}

impl FloorLine {
    /// The tiles on the floor line as text.
    pub fn to_text(&self) -> (text: String)
        ensures
            text@ == glyphs(self@),
    {
        tiles_to_text(&self.tiles())
    }
}

impl PatternLines {
    /// The rows as text: the tiles of each row, row after row.
    pub fn to_text(&self) -> (text: String)
        ensures
            text@ == lines_text(self@, self@.len() as int),
    {
        let rows = self.len();
        let mut text = String::new();
        let mut row: usize = 0;
        while row < rows
            invariant
                row <= rows,
                rows == self@.len(),
                text@ == lines_text(self@, row as int),
            decreases rows - row,
        {
            push_tiles(&mut text, &self.line(row));
            row += 1;
        }
        text
    }
}

impl Wall {
    /// The wall as text: five characters for each row, row after row, with
    /// a dot for an empty cell.
    pub fn to_text(&self) -> (text: String)
        ensures
            text@ == wall_text(self@, 5),
            text@.len() == 25,
    {
        let mut text = String::new();
        let mut row: usize = 0;
        while row < 5
            invariant
                row <= 5,
                text@ == wall_text(self@, row as int),
                text@.len() == 5 * row,
            decreases 5 - row,
        {
            let ghost before = text@;
            let mut col: usize = 0;
            proof {
                self.lemma_shape();
            }
            assert(text@ =~= before + row_text(self@[row as int]).take(0));
            while col < 5
                invariant
                    row < 5,
                    col <= 5,
                    self@.len() == 5,
                    self@[row as int].len() == 5,
                    text@ == before + row_text(self@[row as int]).take(col as int),
                decreases 5 - col,
            {
                let c = match self.get(row, col) {
                    Some(tile) => tile.symbol(),
                    None => EMPTY_CELL,
                };
                text.push(c);
                assert(text@ =~= before + row_text(self@[row as int]).take(col + 1));
                col += 1;
            }
            assert(row_text(self@[row as int]).take(5) =~= row_text(self@[row as int]));
            row += 1;
        }
        text
    }
}

} // verus!
