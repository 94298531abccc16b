//! The tile supply: the bag from which the displays are filled, and the lid
//! that collects what leaves the boards and refills the bag when it runs
//! out.

use vstd::prelude::*;
use rand::rngs::StdRng;
use rand::seq::SliceRandom;
use rand::RngCore;
use rand::SeedableRng;
use crate::tally::{
    all_colors, append_colors, colors_of, count, count_in, lemma_colors_no_marker,
    lemma_colors_of_are_colors, lemma_count_concat, lemma_count_empty, lemma_count_filter,
    lemma_count_push, lemma_count_split,
};
use crate::tile::Tile;

verus! {

/// The number of tiles of each colour in the game.
pub const TILES_PER_COLOR: usize = 20;

/// The generator `rand::rngs::StdRng`; nothing is known of its state.
#[verifier::external_type_specification]
#[verifier::external_body]
pub struct ExStdRng(StdRng);

/// `StdRng::seed_from_u64`: a generator started from `seed`. Nothing is
/// claimed of it.
#[verifier::external_body]
fn seeded_rng(seed: u64) -> (rng: StdRng) {
    StdRng::seed_from_u64(seed)
}

/// `SliceRandom::shuffle` on the tiles: it swaps elements of the slice among
/// themselves, so the tiles afterwards are the tiles before in some order.
/// Which order is not claimed.
#[verifier::external_body]
fn shuffle_with(tiles: &mut Vec<Tile>, rng: &mut StdRng)
    ensures
        final(tiles)@.to_multiset() == old(tiles)@.to_multiset(),
{
    tiles.shuffle(rng);
}

/// `RngCore::next_u64`: the next number of the generator. Nothing is
/// claimed of it.
#[verifier::external_body]
fn next_number(rng: &mut StdRng) -> (number: u64) {
    rng.next_u64()
}

/// What the supply holds.
#[verifier::ext_equal]
pub struct BagView {
    /// The tiles in the bag; the last one is drawn first.
    pub tiles: Seq<Tile>,
    /// The tiles in the lid.
    pub lid: Seq<Tile>,
    /// Whether the first-player marker rests in the lid.
    pub lid_marker: bool,
    /// The number from which the next shuffle starts.
    pub seed: u64,
}

impl BagView {
    /// Bag and lid hold playable tiles only.
    pub open spec fn wf(self) -> bool {
        all_colors(self.tiles) && all_colors(self.lid)
    }

    /// The number of tiles `t` in bag and lid.
    pub open spec fn count(self, t: Tile) -> nat {
        count(self.tiles, t) + count(self.lid, t)
    }

    /// The number of tiles that can still be drawn.
    pub open spec fn available(self) -> nat {
        self.tiles.len() + self.lid.len()
    }

    /// The supply after `tiles` were put in the lid: the playable tiles
    /// join it, and the marker, if it is among them, comes to rest there.
    pub open spec fn discard(self, tiles: Seq<Tile>) -> BagView {
        BagView {
            lid: self.lid + colors_of(tiles),
            lid_marker: self.lid_marker || tiles.contains(Tile::FirstPlayer),
            ..self
        }
    }

    /// The supply after `n` tiles were drawn from a bag that holds as many.
    pub open spec fn drawn_from_top(self, n: nat) -> BagView {
        BagView { tiles: self.tiles.take(self.tiles.len() - n), ..self }
    }

    /// The `n` tiles drawn from a bag that holds as many, in the order in
    /// which they come out.
    pub open spec fn top(self, n: nat) -> Seq<Tile> {
        self.tiles.skip(self.tiles.len() - n).reverse()
    }
}

/// The lid keeps what it is given: every playable tile put in it is counted
/// there afterwards.
pub proof fn lemma_discard(view: BagView, tiles: Seq<Tile>, t: Tile)
    requires
        view.wf(),
    ensures
        view.discard(tiles).wf(),
        t.is_color() ==> view.discard(tiles).count(t) == view.count(t) + count(tiles, t),
{
    lemma_colors_of_are_colors(tiles);
    lemma_count_concat(view.lid, colors_of(tiles), t);
    lemma_count_filter(tiles, |x: Tile| x.is_color(), t);
    let lid = view.lid + colors_of(tiles);
    assert forall|i: int| 0 <= i < lid.len() implies (#[trigger] lid[i]).is_color() by {
        if i < view.lid.len() {
            assert(lid[i] == view.lid[i]);
        } else {
            assert(lid[i] == colors_of(tiles)[i - view.lid.len()]);
        }
    }
}

/// Tiles in another order are the same tiles.
pub proof fn lemma_same_tiles(a: Seq<Tile>, b: Seq<Tile>)
    requires
        a.to_multiset() == b.to_multiset(),
    ensures
        a.len() == b.len(),
        all_colors(a) == all_colors(b),
        forall|t: Tile| count(a, t) == count(b, t),
{
    broadcast use vstd::seq_lib::group_to_multiset_ensures;

    lemma_colors_no_marker(a);
    lemma_colors_no_marker(b);
    assert(a.to_multiset().len() == a.len());
    assert(b.to_multiset().len() == b.len());
}

/// The tile supply: the bag that is drawn from, the lid that is discarded
/// to, and the seed of the next shuffle.
#[derive(Debug)]
pub struct Bag {
    tiles: Vec<Tile>,
    lid: Vec<Tile>,
    lid_marker: bool,
    seed: u64,
}

impl Clone for Bag {
    fn clone(&self) -> (copy: Self)
        ensures
            copy@ == self@,
    {
        Bag {
            tiles: self.tiles.clone(),
            lid: self.lid.clone(),
            lid_marker: self.lid_marker,
            seed: self.seed,
        }
    }
}

impl Bag {
    pub closed spec fn view(&self) -> BagView {
        BagView {
            tiles: self.tiles@,
            lid: self.lid@,
            lid_marker: self.lid_marker,
            seed: self.seed,
        }
    }

    pub open spec fn wf(&self) -> bool {
        self@.wf()
    }

    /// A bag with twenty tiles of each colour, shuffled from `seed`, and an
    /// empty lid.
    pub fn new(seed: u64) -> (bag: Self)
        ensures
            bag.wf(),
            bag@.tiles.len() == 100,
            bag@.lid.len() == 0,
            !bag@.lid_marker,
            forall|t: Tile| t.is_color() ==> count(bag@.tiles, t) == 20,
    {
        let mut tiles: Vec<Tile> = Vec::new();
        let mut k: usize = 0;
        proof {
            assert forall|t: Tile| count(tiles@, t) == 0 by {
                lemma_count_empty(t);
            }
        }
        while k < 5
            invariant
                k <= 5,
                tiles@.len() == 20 * k,
                forall|t: Tile|
                    #[trigger] count(tiles@, t) == if t.ordinal() < k {
                        20nat
                    } else {
                        0nat
                    },
            decreases 5 - k,
        {
            let color = match Tile::from_index(k) {
                Some(color) => color,
                None => Tile::Teal,
            };
            let mut j: usize = 0;
            while j < TILES_PER_COLOR
                invariant
                    j <= 20,
                    k < 5,
                    color == Tile::color(k as int),
                    color.ordinal() == k,
                    tiles@.len() == 20 * k + j,
                    forall|t: Tile|
                        #[trigger] count(tiles@, t) == if t.ordinal() < k {
                            20nat
                        } else if t == color {
                            j as nat
                        } else {
                            0nat
                        },
                decreases 20 - j,
            {
                proof {
                    assert forall|t: Tile|
                        #[trigger] count(tiles@.push(color), t) == if t.ordinal() < k {
                            20nat
                        } else if t == color {
                            (j + 1) as nat
                        } else {
                            0nat
                        } by {
                        lemma_count_push(tiles@, color, t);
                    }
                }
                tiles.push(color);
                j += 1;
            }
            k += 1;
        }
        let mut bag = Bag { tiles, lid: Vec::new(), lid_marker: false, seed };
        proof {
            lemma_colors_no_marker(bag@.tiles);
            assert(count(bag@.tiles, Tile::FirstPlayer) == 0);
        }
        bag.shuffle();
        bag
    }

    /// The supply that holds the given tiles, if bag and lid hold playable
    /// tiles only.
    pub fn from_parts(tiles: Vec<Tile>, lid: Vec<Tile>, lid_marker: bool, seed: u64) -> (bag:
        Option<Self>)
        ensures
            bag is Some <==> all_colors(tiles@) && all_colors(lid@),
            bag matches Some(b) ==> b@ == (BagView { tiles: tiles@, lid: lid@, lid_marker, seed })
                && b.wf(),
    {
        if crate::tally::is_all_colors(&tiles) && crate::tally::is_all_colors(&lid) {
            Some(Bag { tiles, lid, lid_marker, seed })
        } else {
            None
        }
    }

    /// Puts the tiles of the bag in a new order, and moves the seed on.
    pub fn shuffle(&mut self)
        ensures
            final(self)@.tiles.to_multiset() == old(self)@.tiles.to_multiset(),
            final(self)@.tiles.len() == old(self)@.tiles.len(),
            forall|t: Tile| count(final(self)@.tiles, t) == count(old(self)@.tiles, t),
            final(self)@.lid == old(self)@.lid,
            final(self)@.lid_marker == old(self)@.lid_marker,
            old(self).wf() ==> final(self).wf(),
    {
        let mut rng = seeded_rng(self.seed);
        shuffle_with(&mut self.tiles, &mut rng);
        self.seed = next_number(&mut rng);
        proof {
            lemma_same_tiles(old(self)@.tiles, self@.tiles);
        }
    }

    /// Moves tiles from the end of the bag to `drawn` until `drawn` holds
    /// `want` tiles or the bag is empty.
    fn draw_into(&mut self, drawn: &mut Vec<Tile>, want: usize)
        requires
            old(drawn)@.len() <= want,
        ensures
            final(self)@ == old(self)@.drawn_from_top(
                (final(drawn)@.len() - old(drawn)@.len()) as nat,
            ),
            final(drawn)@ == old(drawn)@ + old(self)@.top(
                (final(drawn)@.len() - old(drawn)@.len()) as nat,
            ),
            final(drawn)@.len() - old(drawn)@.len() == if want - old(drawn)@.len()
                <= old(self)@.tiles.len() {
                want - old(drawn)@.len()
            } else {
                old(self)@.tiles.len() as int
            },
    {
        let ghost start = self@;
        let ghost had = drawn@;
        assert(self@ =~= start.drawn_from_top(0));
        assert(drawn@ =~= had + start.top(0));
        while drawn.len() < want && self.tiles.len() > 0
            invariant
                had.len() <= drawn@.len() <= want,
                drawn@.len() - had.len() <= start.tiles.len(),
                self@ == start.drawn_from_top((drawn@.len() - had.len()) as nat),
                drawn@ == had + start.top((drawn@.len() - had.len()) as nat),
            decreases want - drawn@.len(),
        {
            let ghost k = (drawn@.len() - had.len()) as nat;
            match self.tiles.pop() {
                Some(tile) => {
                    drawn.push(tile);
                    proof {
                        assert(tile == start.tiles[start.tiles.len() - k - 1]);
                        assert(self@ =~= start.drawn_from_top(k + 1));
                        assert(drawn@ =~= had + start.top(k + 1));
                    }
                },
                None => {},
            }
        }
    }

    /// Draws up to `n` tiles. They come from the end of the bag; when the
    /// bag holds fewer than `n`, all of it is drawn, the lid is emptied
    /// into the bag, the bag is shuffled, and the rest is drawn from it. If
    /// bag and lid together hold fewer than `n` tiles, all of them are
    /// drawn and no more.
    pub fn take(&mut self, n: u32) -> (drawn: Vec<Tile>)
        ensures
            drawn@.len() == if n <= old(self)@.available() {
                n as nat
            } else {
                old(self)@.available()
            },
            forall|t: Tile| count(drawn@, t) + final(self)@.count(t) == old(self)@.count(t),
            drawn@.len() + final(self)@.available() == old(self)@.available(),
            final(self)@.lid_marker == old(self)@.lid_marker,
            n <= old(self)@.tiles.len() ==> final(self)@ == old(self)@.drawn_from_top(n as nat)
                && drawn@ == old(self)@.top(n as nat),
            n > old(self)@.tiles.len() ==> {
                &&& final(self)@.lid.len() == 0
                &&& drawn@.take(old(self)@.tiles.len() as int) == old(self)@.tiles.reverse()
                &&& forall|t: Tile|
                    count(drawn@.skip(old(self)@.tiles.len() as int), t) + count(
                        final(self)@.tiles,
                        t,
                    ) == count(old(self)@.lid, t)
            },
            old(self).wf() ==> final(self).wf() && all_colors(drawn@),
    {
        let want: usize = n as usize;
        let mut drawn: Vec<Tile> = Vec::new();
        let ghost start = self@;
        self.draw_into(&mut drawn, want);
        let ghost first = drawn@;
        proof {
            assert(first =~= start.top(first.len()));
            assert forall|t: Tile| count(first, t) + self@.count(t) == start.count(t) by {
                lemma_count_split(start.tiles, start.tiles.len() - first.len(), t);
                start.tiles.skip(start.tiles.len() - first.len()).lemma_reverse_to_multiset();
            }
        }
        if drawn.len() < want {
            assert(self@.tiles.len() == 0);
            assert(first =~= start.tiles.reverse()) by {
                assert(start.tiles.skip(0) =~= start.tiles);
            }
            std::mem::swap(&mut self.tiles, &mut self.lid);
            assert(self@.lid =~= Seq::<Tile>::empty());
            self.shuffle();
            let ghost mixed = self@;
            self.draw_into(&mut drawn, want);
            proof {
                let second = mixed.top((drawn@.len() - first.len()) as nat);
                assert(drawn@ == first + second);
                assert(drawn@.take(start.tiles.len() as int) =~= first);
                assert(drawn@.skip(start.tiles.len() as int) =~= second);
                assert forall|t: Tile| count(drawn@, t) + self@.count(t) == start.count(t) by {
                    lemma_count_concat(first, second, t);
                    lemma_count_split(mixed.tiles, mixed.tiles.len() - second.len(), t);
                    mixed.tiles.skip(mixed.tiles.len() - second.len()).lemma_reverse_to_multiset();
                    lemma_count_empty(t);
                }
                assert forall|t: Tile|
                    count(second, t) + count(self@.tiles, t) == count(start.lid, t) by {
                    lemma_count_split(mixed.tiles, mixed.tiles.len() - second.len(), t);
                    mixed.tiles.skip(mixed.tiles.len() - second.len()).lemma_reverse_to_multiset();
                }
            }
        }
        proof {
            if old(self).wf() {
                lemma_colors_no_marker(start.tiles);
                lemma_colors_no_marker(start.lid);
                lemma_colors_no_marker(self@.tiles);
                lemma_colors_no_marker(self@.lid);
                lemma_colors_no_marker(drawn@);
            }
        }
        drawn
    }

    /// Puts `tiles` in the lid: the playable tiles join it, and the
    /// first-player marker, if it is among them, comes to rest there.
    pub fn discard(&mut self, tiles: Vec<Tile>)
        ensures
            final(self)@ == old(self)@.discard(tiles@),
            old(self).wf() ==> final(self).wf(),
    {
        append_colors(&mut self.lid, &tiles);
        if count_in(&tiles, Tile::FirstPlayer) > 0 {
            self.lid_marker = true;
        }
        proof {
            crate::tally::lemma_count_absent(tiles@, Tile::FirstPlayer);
            if old(self).wf() {
                lemma_discard(old(self)@, tiles@, Tile::Blue);
            }
        }
    }

    /// Takes the first-player marker out of the lid, if it rests there.
    pub fn take_marker(&mut self) -> (held: bool)
        ensures
            held == old(self)@.lid_marker,
            final(self)@ == (BagView { lid_marker: false, ..old(self)@ }),
    {
        let held = self.lid_marker;
        self.lid_marker = false;
        held
    }

    /// The number of tiles in the bag.
    pub fn len(&self) -> (n: usize)
        ensures
            n == self@.tiles.len(),
    {
        self.tiles.len()
    }

    /// The number of tiles in the lid.
    pub fn lid_len(&self) -> (n: usize)
        ensures
            n == self@.lid.len(),
    {
        self.lid.len()
    }

    /// Whether the first-player marker rests in the lid.
    pub fn lid_has_marker(&self) -> (b: bool)
        ensures
            b == self@.lid_marker,
    {
        self.lid_marker
    }

    /// The number of tiles of `color` in the bag.
    pub fn count(&self, color: Tile) -> (n: usize)
        ensures
            n == count(self@.tiles, color),
    {
        count_in(&self.tiles, color)
    }

    /// The number of tiles of `color` in the lid.
    pub fn lid_count(&self, color: Tile) -> (n: usize)
        ensures
            n == count(self@.lid, color),
    {
        count_in(&self.lid, color)
    }

    /// The tiles in the bag; the last one is drawn first.
    pub fn tiles(&self) -> (tiles: Vec<Tile>)
        ensures
            tiles@ == self@.tiles,
    {
        self.tiles.clone()
    }

    /// The number from which the next shuffle starts.
    pub fn seed(&self) -> (seed: u64)
        ensures
            seed == self@.seed,
    {
        self.seed
    }

    /// The tiles in the lid, in the order in which they came.
    pub fn lid(&self) -> (tiles: Vec<Tile>)
        ensures
            tiles@ == self@.lid,
    {
        self.lid.clone()
    }
}

} // verus!
