//! The displays from which the players draft: the factories, refilled each
//! round, and the centre, which collects what a draft leaves behind and
//! holds the first-player marker until it is claimed.

use vstd::prelude::*;
use crate::bag::Bag;
use crate::tally::{
    all_colors, append_colors, colors_of, count, count_in, lemma_colors_of_are_colors,
    lemma_count_absent, lemma_count_concat, lemma_count_filter, lemma_split_by_color, matching,
    others, split_by_color,
};
use crate::tile::{GameError, Tile};

verus! {

/// The number of tiles that a factory is filled with.
pub const FACTORY_SIZE: u32 = 4;

/// A factory holds at most four tiles, all of playable colours.
pub open spec fn factory_wf(tiles: Seq<Tile>) -> bool {
    tiles.len() <= 4 && all_colors(tiles)
}

/// Whether a display with these tiles offers `color`.
pub open spec fn offers(tiles: Seq<Tile>, color: Tile) -> bool {
    color.is_color() && count(tiles, color) > 0
}

/// A factory: a display that is filled with four tiles at the start of a
/// round and emptied by the first draft from it.
#[derive(Debug)]
pub struct Factory(Vec<Tile>);

impl Clone for Factory {
    fn clone(&self) -> (copy: Self)
        ensures
            copy@ == self@,
    {
        Factory(self.0.clone())
    }
}

impl Default for Factory {
    fn default() -> (factory: Self)
        ensures
            factory@ == Seq::<Tile>::empty(),
            factory.wf(),
    {
        Factory::new()
    }
}

impl Factory {
    /// The tiles on the factory.
    pub closed spec fn view(&self) -> Seq<Tile> {
        self.0@
    }

    pub open spec fn wf(&self) -> bool {
        factory_wf(self@)
    }

    /// An empty factory.
    pub fn new() -> (factory: Self)
        ensures
            factory@ == Seq::<Tile>::empty(),
            factory.wf(),
    {
        Factory(Vec::new())
    }

    /// A factory that holds the given tiles, if a factory can hold them.
    pub fn from_tiles(tiles: Vec<Tile>) -> (factory: Option<Self>)
        ensures
            factory is Some <==> factory_wf(tiles@),
            factory matches Some(f) ==> f@ == tiles@ && f.wf(),
    {
        if tiles.len() <= 4 && crate::tally::is_all_colors(&tiles) {
            Some(Factory(tiles))
        } else {
            None
        }
    }

    pub fn len(&self) -> (n: usize)
        ensures
            n == self@.len(),
    {
        self.0.len()
    }

    pub fn is_empty(&self) -> (b: bool)
        ensures
            b == (self@.len() == 0),
    {
        self.0.len() == 0
    }

    /// The tiles on the factory.
    pub fn tiles(&self) -> (tiles: Vec<Tile>)
        ensures
            tiles@ == self@,
    {
        self.0.clone()
    }

    /// The number of tiles of `color` on the factory.
    pub fn count(&self, color: Tile) -> (n: usize)
        ensures
            n == count(self@, color),
    {
        count_in(&self.0, color)
    }

    /// Fills an empty factory with four tiles drawn from the bag, or with
    /// as many as bag and lid still hold. A factory that still holds tiles
    /// is not filled: they would be lost.
    pub fn fill(&mut self, bag: &mut Bag) -> (filled: Result<(), GameError>)
        ensures
            match filled {
                Ok(_) => {
                    &&& old(self)@.len() == 0
                    &&& final(self)@.len() == if 4 <= old(bag)@.available() {
                        4
                    } else {
                        old(bag)@.available()
                    }
                    &&& forall|t: Tile|
                        count(final(self)@, t) + final(bag)@.count(t) == old(bag)@.count(t)
                    &&& final(self)@.len() + final(bag)@.available() == old(bag)@.available()
                    &&& final(bag)@.lid_marker == old(bag)@.lid_marker
                    &&& 4 <= old(bag)@.tiles.len() ==> final(bag)@ == old(bag)@.drawn_from_top(4)
                        && final(self)@ == old(bag)@.top(4)
                    &&& 4 > old(bag)@.tiles.len() ==> final(bag)@.lid.len() == 0
                        && final(self)@.take(old(bag)@.tiles.len() as int)
                        == old(bag)@.tiles.reverse()
                    &&& old(bag).wf() ==> final(bag).wf() && final(self).wf()
                },
                Err(e) => {
                    &&& old(self)@.len() > 0
                    &&& e == GameError::InternalInconsistency
                    &&& final(self)@ == old(self)@
                    &&& final(bag)@ == old(bag)@
                },
            },
    {
        if self.0.len() > 0 {
            return Err(GameError::InternalInconsistency);
        }
        self.0 = bag.take(FACTORY_SIZE);
        Ok(())
    }

    /// Takes all tiles off the factory: those of `color` are the first part
    /// of the result, for the player; the others are the second part, for
    /// the centre. A colour that the factory does not hold is refused, and
    /// the factory stays as it is.
    pub fn offer(&mut self, color: Tile) -> (parts: Result<(Vec<Tile>, Vec<Tile>), GameError>)
        ensures
            match parts {
                Ok((matched, rest)) => {
                    &&& offers(old(self)@, color)
                    &&& matched@ == matching(old(self)@, color)
                    &&& rest@ == others(old(self)@, color)
                    &&& final(self)@ == Seq::<Tile>::empty()
                },
                Err(e) => {
                    &&& !offers(old(self)@, color)
                    &&& e == GameError::InvalidSelection
                    &&& final(self)@ == old(self)@
                },
            },
    {
        if !color.is_playable() || count_in(&self.0, color) == 0 {
            return Err(GameError::InvalidSelection);
        }
        Ok(self.take_color(color))
    }

    /// Takes all tiles off the factory, those of `color` apart from the
    /// others.
    pub(crate) fn take_color(&mut self, color: Tile) -> (parts: (Vec<Tile>, Vec<Tile>))
        ensures
            parts.0@ == matching(old(self)@, color),
            parts.1@ == others(old(self)@, color),
            final(self)@ == Seq::<Tile>::empty(),
    {
        let parts = split_by_color(&self.0, color);
        self.0 = Vec::new();
        parts
    }
}

/// What the centre holds.
#[verifier::ext_equal]
pub struct CenterView {
    pub tiles: Seq<Tile>,
    /// Whether the first-player marker lies in the centre.
    pub marker: bool,
}

impl CenterView {
    pub open spec fn wf(self) -> bool {
        all_colors(self.tiles)
    }

    /// The centre after the tiles of `color` were taken from it.
    pub open spec fn offer(self, color: Tile) -> CenterView {
        CenterView { tiles: others(self.tiles, color), ..self }
    }

    /// The centre after `tiles` were moved to it: the playable tiles join
    /// it, and the marker, if it is among them, lies there.
    pub open spec fn receive(self, tiles: Seq<Tile>) -> CenterView {
        CenterView {
            tiles: self.tiles + colors_of(tiles),
            marker: self.marker || tiles.contains(Tile::FirstPlayer),
        }
    }

    /// What the centre shows: the marker, if it lies there, and the tiles.
    pub open spec fn contents(self) -> Seq<Tile> {
        if self.marker {
            Seq::<Tile>::empty().push(Tile::FirstPlayer) + self.tiles
        } else {
            self.tiles
        }
    }
}

/// The centre keeps what it is given.
pub proof fn lemma_receive(view: CenterView, tiles: Seq<Tile>, t: Tile)
    requires
        view.wf(),
    ensures
        view.receive(tiles).wf(),
        t.is_color() ==> count(view.receive(tiles).tiles, t) == count(view.tiles, t) + count(
            tiles,
            t,
        ),
{
    lemma_colors_of_are_colors(tiles);
    lemma_count_concat(view.tiles, colors_of(tiles), t);
    lemma_count_filter(tiles, |x: Tile| x.is_color(), t);
    let all = view.tiles + colors_of(tiles);
    assert forall|i: int| 0 <= i < all.len() implies (#[trigger] all[i]).is_color() by {
        if i < view.tiles.len() {
            assert(all[i] == view.tiles[i]);
        } else {
            assert(all[i] == colors_of(tiles)[i - view.tiles.len()]);
        }
    }
}

/// The centre: the display that collects what drafts from the factories
/// leave, and that holds the first-player marker until the first draft
/// from it.
#[derive(Debug)]
pub struct Center {
    tiles: Vec<Tile>,
    marker: bool,
}

impl Clone for Center {
    fn clone(&self) -> (copy: Self)
        ensures
            copy@ == self@,
    {
        Center { tiles: self.tiles.clone(), marker: self.marker }
    }
}

impl Center {
    pub closed spec fn view(&self) -> CenterView {
        CenterView { tiles: self.tiles@, marker: self.marker }
    }

    pub open spec fn wf(&self) -> bool {
        self@.wf()
    }

    /// The centre at the start of a game: no tiles, and the marker.
    pub fn new() -> (center: Self)
        ensures
            center@ == (CenterView { tiles: Seq::empty(), marker: true }),
            center.wf(),
    {
        Center { tiles: Vec::new(), marker: true }
    }

    /// A centre that holds the given tiles, if they are playable tiles.
    pub fn from_tiles(tiles: Vec<Tile>, marker: bool) -> (center: Option<Self>)
        ensures
            center is Some <==> all_colors(tiles@),
            center matches Some(c) ==> c@ == (CenterView { tiles: tiles@, marker }) && c.wf(),
    {
        if crate::tally::is_all_colors(&tiles) {
            Some(Center { tiles, marker })
        } else {
            None
        }
    }

    /// The number of tiles in the centre, the marker not counted.
    pub fn len(&self) -> (n: usize)
        ensures
            n == self@.tiles.len(),
    {
        self.tiles.len()
    }

    pub fn has_marker(&self) -> (b: bool)
        ensures
            b == self@.marker,
    {
        self.marker
    }

    /// The tiles in the centre, the marker not among them.
    pub fn tiles(&self) -> (tiles: Vec<Tile>)
        ensures
            tiles@ == self@.tiles,
    {
        self.tiles.clone()
    }

    /// What the centre shows: the marker, if it lies there, and the tiles.
    pub fn contents(&self) -> (shown: Vec<Tile>)
        ensures
            shown@ == self@.contents(),
    {
        let mut shown: Vec<Tile> = Vec::new();
        if self.marker {
            shown.push(Tile::FirstPlayer);
        }
        crate::tally::append_from(&mut shown, &self.tiles, 0);
        assert(self.tiles@.skip(0) =~= self.tiles@);
        assert(Seq::<Tile>::empty() + self.tiles@ =~= self.tiles@);
        shown
    }

    /// The number of tiles of `color` in the centre.
    pub fn count(&self, color: Tile) -> (n: usize)
        ensures
            n == count(self@.tiles, color),
    {
        count_in(&self.tiles, color)
    }

    /// Takes the tiles of `color` out of the centre and returns them; the
    /// others stay where they are. A colour that the centre does not hold
    /// is refused, and the centre stays as it is.
    pub fn offer(&mut self, color: Tile) -> (matched: Result<Vec<Tile>, GameError>)
        ensures
            match matched {
                Ok(m) => {
                    &&& offers(old(self)@.tiles, color)
                    &&& m@ == matching(old(self)@.tiles, color)
                    &&& final(self)@ == old(self)@.offer(color)
                },
                Err(e) => {
                    &&& !offers(old(self)@.tiles, color)
                    &&& e == GameError::InvalidSelection
                    &&& final(self)@ == old(self)@
                },
            },
            old(self).wf() ==> final(self).wf(),
    {
        if !color.is_playable() || count_in(&self.tiles, color) == 0 {
            return Err(GameError::InvalidSelection);
        }
        Ok(self.take_color(color))
    }

    /// Takes the tiles of `color` out of the centre and returns them.
    pub(crate) fn take_color(&mut self, color: Tile) -> (matched: Vec<Tile>)
        ensures
            matched@ == matching(old(self)@.tiles, color),
            final(self)@ == old(self)@.offer(color),
            old(self).wf() ==> final(self).wf(),
    {
        let (matched, rest) = split_by_color(&self.tiles, color);
        self.tiles = rest;
        proof {
            lemma_split_by_color(old(self)@.tiles, color, color);
        }
        matched
    }

    /// Moves `tiles` to the centre: the playable tiles join it, and the
    /// marker, if it is among them, lies there.
    pub fn receive(&mut self, tiles: Vec<Tile>)
        ensures
            final(self)@ == old(self)@.receive(tiles@),
            old(self).wf() ==> final(self).wf(),
    {
        append_colors(&mut self.tiles, &tiles);
        if count_in(&tiles, Tile::FirstPlayer) > 0 {
            self.marker = true;
        }
        proof {
            lemma_count_absent(tiles@, Tile::FirstPlayer);
            if old(self).wf() {
                lemma_receive(old(self)@, tiles@, Tile::Blue);
            }
        }
    }

    /// Takes the first-player marker from the centre, if it lies there.
    pub fn take_first_player_marker(&mut self) -> (taken: bool)
        ensures
            taken == old(self)@.marker,
            final(self)@ == (CenterView { marker: false, ..old(self)@ }),
    {
        let taken = self.marker;
        self.marker = false;
        taken
    }
}

} // verus!
