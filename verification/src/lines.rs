//! The pattern lines: five rows of growing length in which a player
//! collects tiles of one colour until a row is full.

use vstd::prelude::*;
use crate::tally::{
    all_same, count, count_all, count_in, is_all, lemma_count_all_push, lemma_count_all_update,
    lemma_count_concat,
};
use crate::tile::Tile;

verus! {

/// Row `row` holds at most `row + 1` tiles, all of one playable colour.
pub open spec fn line_wf(line: Seq<Tile>, row: int) -> bool {
    &&& line.len() <= row + 1
    &&& line.len() > 0 ==> line[0].is_color() && all_same(line, line[0])
}

pub open spec fn lines_wf(lines: Seq<Seq<Tile>>) -> bool {
    &&& lines.len() == 5
    &&& forall|r: int| 0 <= r < 5 ==> line_wf(#[trigger] lines[r], r)
}

/// The rows that vectors of tiles describe.
pub open spec fn rows_of(rows: Seq<Vec<Tile>>) -> Seq<Seq<Tile>> {
    Seq::new(rows.len(), |r: int| rows[r]@)
}

pub open spec fn empty_lines() -> Seq<Seq<Tile>> {
    Seq::new(5, |r: int| Seq::<Tile>::empty())
}

/// Whether row `row` takes tiles of `color`: the row exists, is not full,
/// and is empty or holds that colour.
pub open spec fn line_accepts(lines: Seq<Seq<Tile>>, row: int, color: Tile) -> bool {
    &&& 0 <= row < lines.len()
    &&& color.is_color()
    &&& lines[row].len() < row + 1
    &&& lines[row].len() == 0 || lines[row][0] == color
}

/// How many more tiles row `row` takes.
pub open spec fn line_room(lines: Seq<Seq<Tile>>, row: int) -> nat {
    if 0 <= row < lines.len() && lines[row].len() < row + 1 {
        (row + 1 - lines[row].len()) as nat
    } else {
        0
    }
}

/// How many of `offered` tiles row `row` keeps.
pub open spec fn line_kept(lines: Seq<Seq<Tile>>, row: int, offered: nat) -> nat {
    if offered <= line_room(lines, row) {
        offered
    } else {
        line_room(lines, row)
    }
}

/// The lines after `tiles` were offered to row `row`, in order.
pub open spec fn lines_add(lines: Seq<Seq<Tile>>, row: int, tiles: Seq<Tile>) -> Seq<Seq<Tile>> {
    lines.update(row, lines[row] + tiles.take(line_kept(lines, row, tiles.len()) as int))
}

pub open spec fn line_full(lines: Seq<Seq<Tile>>, row: int) -> bool {
    0 <= row < lines.len() && lines[row].len() == row + 1
}

/// Filling a row that accepts the colour keeps the lines well formed.
pub proof fn lemma_lines_add_wf(lines: Seq<Seq<Tile>>, row: int, color: Tile, tiles: Seq<Tile>)
    requires
        lines_wf(lines),
        line_accepts(lines, row, color),
        all_same(tiles, color),
    ensures
        lines_wf(lines_add(lines, row, tiles)),
        lines_add(lines, row, tiles)[row].len() > 0 ==> lines_add(lines, row, tiles)[row][0]
            == color,
{
    let after = lines_add(lines, row, tiles);
    let kept = line_kept(lines, row, tiles.len()) as int;
    assert forall|r: int| 0 <= r < 5 implies line_wf(#[trigger] after[r], r) by {
        if r == row {
            let line = after[r];
            assert(line_wf(lines[r], r));
            assert(line == lines[r] + tiles.take(kept));
            if line.len() > 0 {
                assert forall|i: int| 0 <= i < line.len() implies #[trigger] line[i] == color by {
                    if i < lines[r].len() {
                        assert(line[i] == lines[r][i]);
                    } else {
                        assert(line[i] == tiles[i - lines[r].len()]);
                    }
                }
            }
        } else {
            assert(after[r] == lines[r]);
            assert(line_wf(lines[r], r));
        }
    }
}

/// Filling a row moves into the lines what the row keeps of the tiles.
pub proof fn lemma_lines_add_count(lines: Seq<Seq<Tile>>, row: int, tiles: Seq<Tile>, t: Tile)
    requires
        0 <= row < lines.len(),
    ensures
        count_all(lines_add(lines, row, tiles), t) == count_all(lines, t) + count(
            tiles.take(line_kept(lines, row, tiles.len()) as int),
            t,
        ),
{
    let kept = line_kept(lines, row, tiles.len()) as int;
    lemma_count_all_update(lines, row, lines[row] + tiles.take(kept), t);
    lemma_count_concat(lines[row], tiles.take(kept), t);
}

/// A copy of the rows.
pub fn copy_rows(rows: &Vec<Vec<Tile>>) -> (copy: Vec<Vec<Tile>>)
    ensures
        rows_of(copy@) == rows_of(rows@),
{
    let mut copy: Vec<Vec<Tile>> = Vec::new();
    let mut r: usize = 0;
    while r < rows.len()
        invariant
            r <= rows@.len(),
            copy@.len() == r,
            forall|j: int| 0 <= j < r ==> (#[trigger] copy@[j])@ == rows@[j]@,
        decreases rows@.len() - r,
    {
        copy.push(rows[r].clone());
        r += 1;
    }
    assert(rows_of(copy@) =~= rows_of(rows@));
    copy
}

/// The five pattern lines of a board; row `r` has room for `r + 1` tiles.
#[derive(Debug)]
pub struct PatternLines(Vec<Vec<Tile>>);

impl Clone for PatternLines {
    fn clone(&self) -> (copy: Self)
        ensures
            copy@ == self@,
    {
        let mut rows: Vec<Vec<Tile>> = Vec::new();
        let mut r: usize = 0;
        while r < self.0.len()
            invariant
                r <= self.0@.len(),
                rows@.len() == r,
                forall|j: int| 0 <= j < r ==> (#[trigger] rows@[j])@ == self.0@[j]@,
            decreases self.0@.len() - r,
        {
            rows.push(self.0[r].clone());
            r += 1;
        }
        let copy = PatternLines(rows);
        assert(copy@ =~= self@);
        copy
    }
}

impl Default for PatternLines {
    fn default() -> (lines: Self)
        ensures
            lines@ == empty_lines(),
            lines.wf(),
    {
        PatternLines::new()
    }
}

impl PatternLines {
    /// The rows, shortest first, each with its tiles.
    pub closed spec fn view(&self) -> Seq<Seq<Tile>> {
        Seq::new(self.0@.len(), |r: int| self.0@[r]@)
    }

    pub open spec fn wf(&self) -> bool {
        lines_wf(self@)
    }

    /// Five empty rows.
    pub fn new() -> (lines: Self)
        ensures
            lines@ == empty_lines(),
            lines.wf(),
    {
        let mut rows: Vec<Vec<Tile>> = Vec::new();
        let mut r: usize = 0;
        while r < 5
            invariant
                r <= 5,
                rows@.len() == r,
                forall|j: int| 0 <= j < r ==> (#[trigger] rows@[j])@ == Seq::<Tile>::empty(),
            decreases 5 - r,
        {
            rows.push(Vec::new());
            r += 1;
        }
        let lines = PatternLines(rows);
        assert(lines@ =~= empty_lines());
        lines
    }

    /// The rows that hold the given tiles, if these make up well-formed
    /// pattern lines.
    pub fn from_rows(rows: Vec<Vec<Tile>>) -> (lines: Option<Self>)
        ensures
            lines is Some <==> lines_wf(rows_of(rows@)),
            lines matches Some(l) ==> l@ == rows_of(rows@) && l.wf(),
    {
        let ghost view = rows_of(rows@);
        if rows.len() != 5 {
            return None;
        }
        let mut r: usize = 0;
        while r < 5
            invariant
                r <= 5,
                rows@.len() == 5,
                view == rows_of(rows@),
                forall|j: int| 0 <= j < r ==> line_wf(#[trigger] view[j], j),
            decreases 5 - r,
        {
            let line = &rows[r];
            assert(line@ == view[r as int]);
            if line.len() > r + 1 {
                return None;
            }
            if line.len() > 0 && !(line[0].is_playable() && is_all(line, line[0])) {
                return None;
            }
            r += 1;
        }
        let lines = PatternLines(rows);
        assert(lines@ =~= view);
        Some(lines)
    }

    /// The rows, shortest first, each with its tiles.
    pub fn rows(&self) -> (rows: Vec<Vec<Tile>>)
        ensures
            rows_of(rows@) == self@,
    {
        let copy = self.clone();
        assert(rows_of(copy.0@) =~= copy@);
        copy.0
    }

    /// The number of rows.
    pub fn len(&self) -> (rows: usize)
        ensures
            rows == self@.len(),
    {
        self.0.len()
    }

    /// The number of tiles in a row; a row that does not exist holds none.
    pub fn line_len(&self, row: usize) -> (n: usize)
        ensures
            n == if row < self@.len() {
                self@[row as int].len()
            } else {
                0
            },
    {
        if row < self.0.len() {
            self.0[row].len()
        } else {
            0
        }
    }

    /// The colour that a row holds, if it holds any tile.
    pub fn line_color(&self, row: usize) -> (color: Option<Tile>)
        ensures
            color == if row < self@.len() && self@[row as int].len() > 0 {
                Some(self@[row as int][0])
            } else {
                None
            },
    {
        if row < self.0.len() && self.0[row].len() > 0 {
            Some(self.0[row][0])
        } else {
            None
        }
    }

    /// The tiles of a row; a row that does not exist holds none.
    pub fn line(&self, row: usize) -> (tiles: Vec<Tile>)
        ensures
            tiles@ == if row < self@.len() {
                self@[row as int]
            } else {
                Seq::<Tile>::empty()
            },
    {
        if row < self.0.len() {
            self.0[row].clone()
        } else {
            Vec::new()
        }
    }

    pub fn is_full(&self, row: usize) -> (b: bool)
        ensures
            b == line_full(self@, row as int),
    {
        row < self.0.len() && self.0[row].len() == row + 1
    }

    /// Whether a row takes tiles of `color`.
    pub fn accepts(&self, row: usize, color: Tile) -> (b: bool)
        ensures
            b == line_accepts(self@, row as int, color),
    {
        row < self.0.len() && color.is_playable() && self.0[row].len() < row + 1 && (
        self.0[row].len() == 0 || self.0[row][0] == color)
    }

    /// Puts into row `row` as many of `tiles`, from the first on, as the row
    /// has room for, and returns their number.
    pub(crate) fn fill(&mut self, row: usize, tiles: &Vec<Tile>) -> (kept: usize)
        requires
            row < old(self)@.len(),
        ensures
            final(self)@ == lines_add(old(self)@, row as int, tiles@),
            kept == line_kept(old(self)@, row as int, tiles@.len()),
            kept <= tiles@.len(),
    {
        let rows = self.0.len();
        assert(row < rows);
        let held = self.0[row].len();
        let room: usize = if held < row + 1 {
            row + 1 - held
        } else {
            0
        };
        let kept: usize = if tiles.len() <= room {
            tiles.len()
        } else {
            room
        };
        let ghost before = self@;
        let mut i: usize = 0;
        assert(self@ =~= before.update(row as int, before[row as int] + tiles@.take(0)));
        while i < kept
            invariant
                i <= kept <= tiles@.len(),
                row < before.len(),
                self.0@.len() == before.len(),
                self@ == before.update(row as int, before[row as int] + tiles@.take(i as int)),
            decreases kept - i,
        {
            let ghost prev = self@;
            self.0[row].push(tiles[i]);
            proof {
                assert(tiles@.take(i + 1) =~= tiles@.take(i as int).push(tiles@[i as int]));
                assert(self@ =~= prev.update(row as int, prev[row as int].push(tiles@[i as int])));
                assert(self@ =~= before.update(
                    row as int,
                    before[row as int] + tiles@.take(i + 1),
                ));
            }
            i += 1;
        }
        kept
    }

    /// Empties row `row` and returns what it held.
    pub(crate) fn clear_row(&mut self, row: usize) -> (tiles: Vec<Tile>)
        requires
            row < old(self)@.len(),
        ensures
            final(self)@ == old(self)@.update(row as int, Seq::<Tile>::empty()),
            tiles@ == old(self)@[row as int],
    {
        let mut tiles: Vec<Tile> = Vec::new();
        std::mem::swap(&mut self.0[row], &mut tiles);
        assert(self@ =~= old(self)@.update(row as int, Seq::<Tile>::empty()));
        tiles
    }

    /// The number of tiles of `color` in the rows.
    pub fn count(&self, color: Tile) -> (n: usize)
        requires
            self.wf(),
        ensures
            n == count_all(self@, color),
            n <= 25,
    {
        let mut n: usize = 0;
        let mut r: usize = 0;
        proof {
            assert(self@.take(0) =~= Seq::<Seq<Tile>>::empty());
        }
        while r < 5
            invariant
                r <= 5,
                self.wf(),
                n <= 5 * r,
                n == count_all(self@.take(r as int), color),
            decreases 5 - r,
        {
            proof {
                assert(self@.take(r + 1) =~= self@.take(r as int).push(self@[r as int]));
                lemma_count_all_push(self@.take(r as int), self@[r as int], color);
                assert(line_wf(self@[r as int], r as int));
            }
            n = n + count_in(&self.0[r], color);
            r += 1;
        }
        assert(self@.take(5) =~= self@);
        n
    }
}

} // verus!
