//! The floor line: where a player's surplus tiles wait for the end of the
//! round, each slot at its price.

use vstd::prelude::*;
use crate::tile::Tile;

verus! {

/// The number of slots of a floor line.
pub const FLOOR_CAPACITY: usize = 7;

/// The price of each slot, first slot first.
pub const OVERFLOW_COST: [i32; 7] = [-1, -1, -2, -2, -2, -3, -3];

/// The price of the slot with the given number.
pub open spec fn slot_cost(slot: int) -> int {
    if slot < 2 {
        -1
    } else if slot < 5 {
        -2
    } else {
        -3
    }
}

/// What a floor line with `held` tiles costs: the prices of the slots in
/// use, summed; beyond the last slot nothing is added.
pub open spec fn floor_penalty(held: nat) -> int
    decreases held,
{
    if held == 0 {
        0
    } else if held > 7 {
        floor_penalty(7)
    } else {
        floor_penalty((held - 1) as nat) + slot_cost(held - 1)
    }
}

/// A floor line holds at most seven tiles.
pub open spec fn floor_wf(floor: Seq<Tile>) -> bool {
    floor.len() <= 7
}

/// How many more tiles the floor line takes.
pub open spec fn floor_room(floor: Seq<Tile>) -> nat {
    if floor.len() < 7 {
        (7 - floor.len()) as nat
    } else {
        0
    }
}

/// The floor line after `tile` was offered to it.
pub open spec fn floor_add(floor: Seq<Tile>, tile: Tile) -> Seq<Tile> {
    if floor.len() < 7 {
        floor.push(tile)
    } else {
        floor
    }
}

/// How many of `offered` tiles the floor line keeps.
pub open spec fn floor_kept(floor: Seq<Tile>, offered: nat) -> nat {
    if offered <= floor_room(floor) {
        offered
    } else {
        floor_room(floor)
    }
}

/// The floor line after `tiles` were offered to it in order.
pub open spec fn floor_add_all(floor: Seq<Tile>, tiles: Seq<Tile>) -> Seq<Tile> {
    floor + tiles.take(floor_kept(floor, tiles.len()) as int)
}

/// The tiles of `tiles` for which the floor line had no slot left.
pub open spec fn floor_excess(floor: Seq<Tile>, tiles: Seq<Tile>) -> Seq<Tile> {
    tiles.skip(floor_kept(floor, tiles.len()) as int)
}

/// The table of penalties, entry by entry.
pub proof fn lemma_penalty_table()
    ensures
        floor_penalty(0) == 0,
        floor_penalty(1) == -1,
        floor_penalty(2) == -2,
        floor_penalty(3) == -4,
        floor_penalty(4) == -6,
        floor_penalty(5) == -8,
        floor_penalty(6) == -11,
        floor_penalty(7) == -14,
        forall|held: nat| held >= 7 ==> #[trigger] floor_penalty(held) == -14,
{
    reveal_with_fuel(floor_penalty, 9);
}

/// The penalty never rises as tiles are added, is never positive, and stays
/// at the price of seven tiles from the seventh tile on.
pub proof fn lemma_penalty_monotone(held: nat, more: nat)
    requires
        held <= more,
    ensures
        floor_penalty(more) <= floor_penalty(held) <= 0,
        held >= 7 ==> floor_penalty(more) == floor_penalty(held),
        -14 <= floor_penalty(more),
    decreases more - held,
{
    lemma_penalty_table();
    if held < more {
        lemma_penalty_monotone(held + 1, more);
    }
}

/// Offering a tile to a floor line never raises its points, and leaves a
/// full floor line, and so its points, as they were.
pub proof fn lemma_add_lowers_points(floor: Seq<Tile>, tile: Tile)
    ensures
        floor_penalty(floor_add(floor, tile).len()) <= floor_penalty(floor.len()),
        floor.len() >= 7 ==> floor_add(floor, tile) == floor,
{
    lemma_penalty_monotone(floor.len(), floor.len() + 1);
}

/// A floor line. Its slots hold the playable tiles that found no room in a
/// pattern line and, as `Tile::FirstPlayer`, the penalty of the player who
/// claimed the marker; the marker itself rests in the lid.
#[derive(Debug)]
pub struct FloorLine(Vec<Tile>);

impl Clone for FloorLine {
    fn clone(&self) -> (copy: Self)
        ensures
            copy@ == self@,
    {
        FloorLine(self.0.clone())
    }
}

impl Default for FloorLine {
    fn default() -> (floor: Self)
        ensures
            floor@ == Seq::<Tile>::empty(),
            floor.wf(),
    {
        FloorLine::new()
    }
}

impl FloorLine {
    /// The tiles held, first slot first.
    pub closed spec fn view(&self) -> Seq<Tile> {
        self.0@
    }

    pub open spec fn wf(&self) -> bool {
        floor_wf(self@)
    }

    /// An empty floor line.
    pub fn new() -> (floor: Self)
        ensures
            floor@ == Seq::<Tile>::empty(),
            floor.wf(),
    {
        FloorLine(Vec::new())
    }

    /// A floor line that holds the given tiles, if they are seven at most.
    pub fn from_tiles(tiles: Vec<Tile>) -> (floor: Option<Self>)
        ensures
            floor is Some <==> floor_wf(tiles@),
            floor matches Some(f) ==> f@ == tiles@ && f.wf(),
    {
        if tiles.len() <= FLOOR_CAPACITY {
            Some(FloorLine(tiles))
        } else {
            None
        }
    }

    pub fn len(&self) -> (n: usize)
        ensures
            n == self@.len(),
    {
        self.0.len()
    }

    /// The tiles held, first slot first.
    pub fn tiles(&self) -> (tiles: Vec<Tile>)
        ensures
            tiles@ == self@,
    {
        self.0.clone()
    }

    /// Puts `tile` on the next free slot. A full floor line stays as it is
    /// and hands the tile back, for the caller to put it in the lid.
    pub fn add(&mut self, tile: Tile) -> (rejected: Option<Tile>)
        ensures
            final(self)@ == floor_add(old(self)@, tile),
            rejected == if old(self)@.len() < 7 {
                None
            } else {
                Some(tile)
            },
            old(self).wf() ==> final(self).wf(),
    {
        if self.0.len() < FLOOR_CAPACITY {
            self.0.push(tile);
            None
        } else {
            Some(tile)
        }
    }

    /// Offers `tiles` in order, and returns those for which no slot was
    /// left, for the lid.
    pub fn add_all(&mut self, tiles: &Vec<Tile>) -> (excess: Vec<Tile>)
        ensures
            final(self)@ == floor_add_all(old(self)@, tiles@),
            excess@ == floor_excess(old(self)@, tiles@),
            old(self).wf() ==> final(self).wf(),
    {
        assert(tiles@.skip(0) =~= tiles@);
        self.add_from(tiles, 0)
    }

    /// Offers the tiles of `tiles` from position `from` on, in order, and
    /// returns those for which no slot was left.
    pub(crate) fn add_from(&mut self, tiles: &Vec<Tile>, from: usize) -> (excess: Vec<Tile>)
        requires
            from <= tiles@.len(),
        ensures
            final(self)@ == floor_add_all(old(self)@, tiles@.skip(from as int)),
            excess@ == floor_excess(old(self)@, tiles@.skip(from as int)),
            old(self).wf() ==> final(self).wf(),
    {
        let ghost before = self@;
        let ghost offered = tiles@.skip(from as int);
        let mut excess: Vec<Tile> = Vec::new();
        let mut i: usize = from;
        while i < tiles.len()
            invariant
                from <= i <= tiles@.len(),
                offered == tiles@.skip(from as int),
                self@ == before + offered.take(floor_kept(before, (i - from) as nat) as int),
                excess@ == offered.subrange(
                    floor_kept(before, (i - from) as nat) as int,
                    i - from,
                ),
            decreases tiles@.len() - i,
        {
            let rejected = self.add(tiles[i]);
            match rejected {
                Some(t) => {
                    excess.push(t);
                },
                None => {},
            }
            proof {
                assert(offered[i - from] == tiles@[i as int]);
            }
            i += 1;
        }
        proof {
            assert(offered.subrange(floor_kept(before, offered.len()) as int, offered.len() as int)
                =~= offered.skip(floor_kept(before, offered.len()) as int));
        }
        excess
    }

    /// The penalty for the tiles held; never positive.
    pub fn points(&self) -> (p: i32)
        ensures
            p == floor_penalty(self@.len()),
            -14 <= p <= 0,
    {
        let held: usize = if self.0.len() < FLOOR_CAPACITY {
            self.0.len()
        } else {
            FLOOR_CAPACITY
        };
        let mut total: i32 = 0;
        let mut slot: usize = 0;
        proof {
            lemma_penalty_table();
        }
        while slot < held
            invariant
                slot <= held <= 7,
                total == floor_penalty(slot as nat),
                -14 <= total <= 0,
            decreases held - slot,
        {
            proof {
                lemma_penalty_table();
                lemma_penalty_monotone(slot as nat + 1, 7);
            }
            total = total + OVERFLOW_COST[slot];
            slot += 1;
        }
        total
    }

    /// Empties the floor line and returns what it held.
    pub fn clear(&mut self) -> (tiles: Vec<Tile>)
        ensures
            final(self)@ == Seq::<Tile>::empty(),
            tiles@ == old(self)@,
            final(self).wf(),
    {
        let mut tiles: Vec<Tile> = Vec::new();
        std::mem::swap(&mut self.0, &mut tiles);
        tiles
    }
}

} // verus!
