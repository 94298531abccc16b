//! Counting tiles in sequences: the arithmetic on which the conservation of
//! the inventory rests.

use vstd::prelude::*;
use vstd::seq_lib::*;
use crate::tile::Tile;

verus! {

/// How often `t` occurs in `s`.
pub open spec fn count(s: Seq<Tile>, t: Tile) -> nat {
    s.to_multiset().count(t)
}

/// How often `t` occurs in the sequences of `groups`, all taken together.
pub open spec fn count_all(groups: Seq<Seq<Tile>>, t: Tile) -> nat
    decreases groups.len(),
{
    if groups.len() == 0 {
        0
    } else {
        count_all(groups.drop_last(), t) + count(groups.last(), t)
    }
}

/// Whether every tile of `s` is a playable colour.
pub open spec fn all_colors(s: Seq<Tile>) -> bool {
    forall|i: int| 0 <= i < s.len() ==> (#[trigger] s[i]).is_color()
}

/// Whether every tile of `s` is `t`.
pub open spec fn all_same(s: Seq<Tile>, t: Tile) -> bool {
    forall|i: int| 0 <= i < s.len() ==> #[trigger] s[i] == t
}

/// The playable tiles of `s`, in their order.
pub open spec fn colors_of(s: Seq<Tile>) -> Seq<Tile> {
    s.filter(|t: Tile| t.is_color())
}

pub proof fn lemma_count_empty(t: Tile)
    ensures
        count(Seq::<Tile>::empty(), t) == 0,
{
    broadcast use group_to_multiset_ensures;

}

pub proof fn lemma_count_push(s: Seq<Tile>, x: Tile, t: Tile)
    ensures
        count(s.push(x), t) == count(s, t) + if x == t {
            1nat
        } else {
            0nat
        },
{
    broadcast use group_to_multiset_ensures;

}

pub proof fn lemma_count_concat(a: Seq<Tile>, b: Seq<Tile>, t: Tile)
    ensures
        count(a + b, t) == count(a, t) + count(b, t),
{
    lemma_multiset_commutative(a, b);
}

pub proof fn lemma_count_split(s: Seq<Tile>, k: int, t: Tile)
    requires
        0 <= k <= s.len(),
    ensures
        count(s, t) == count(s.take(k), t) + count(s.skip(k), t),
{
    assert(s =~= s.take(k) + s.skip(k));
    lemma_count_concat(s.take(k), s.skip(k), t);
}

pub proof fn lemma_count_absent(s: Seq<Tile>, t: Tile)
    ensures
        count(s, t) == 0 <==> !s.contains(t),
{
    broadcast use group_to_multiset_ensures;

}

pub proof fn lemma_count_filter(s: Seq<Tile>, pred: spec_fn(Tile) -> bool, t: Tile)
    ensures
        count(s.filter(pred), t) == if pred(t) {
            count(s, t)
        } else {
            0
        },
    decreases s.len(),
{
    reveal(Seq::filter);
    if s.len() == 0 {
        assert(s =~= Seq::<Tile>::empty());
        lemma_count_empty(t);
    } else {
        let d = s.drop_last();
        assert(s =~= d.push(s.last()));
        lemma_count_filter(d, pred, t);
        lemma_count_push(d, s.last(), t);
        lemma_count_push(d.filter(pred), s.last(), t);
    }
}

pub proof fn lemma_colors_of_are_colors(s: Seq<Tile>)
    ensures
        all_colors(colors_of(s)),
        colors_of(s).len() <= s.len(),
{
    broadcast use Seq::lemma_filter_pred, Seq::lemma_filter_len;

}

pub proof fn lemma_colors_of_push(s: Seq<Tile>, x: Tile)
    ensures
        colors_of(s.push(x)) == if x.is_color() {
            colors_of(s).push(x)
        } else {
            colors_of(s)
        },
{
    reveal(Seq::filter);
    assert(s.push(x).drop_last() =~= s);
}

pub proof fn lemma_count_all_push(groups: Seq<Seq<Tile>>, g: Seq<Tile>, t: Tile)
    ensures
        count_all(groups.push(g), t) == count_all(groups, t) + count(g, t),
{
    assert(groups.push(g).drop_last() =~= groups);
}

/// Replacing one group moves the count by the difference of the two groups.
pub proof fn lemma_count_all_update(groups: Seq<Seq<Tile>>, i: int, g: Seq<Tile>, t: Tile)
    requires
        0 <= i < groups.len(),
    ensures
        count_all(groups.update(i, g), t) + count(groups[i], t) == count_all(groups, t) + count(
            g,
            t,
        ),
    decreases groups.len(),
{
    let d = groups.drop_last();
    if i == groups.len() - 1 {
        assert(groups.update(i, g).drop_last() =~= d);
    } else {
        lemma_count_all_update(d, i, g, t);
        assert(groups.update(i, g).drop_last() =~= d.update(i, g));
    }
}

/// The first groups hold no more than all groups.
pub proof fn lemma_count_all_prefix(groups: Seq<Seq<Tile>>, i: int, t: Tile)
    requires
        0 <= i <= groups.len(),
    ensures
        count_all(groups.take(i), t) <= count_all(groups, t),
    decreases groups.len() - i,
{
    if i == groups.len() {
        assert(groups.take(i) =~= groups);
    } else {
        lemma_count_all_prefix(groups, i + 1, t);
        assert(groups.take(i + 1) =~= groups.take(i).push(groups[i]));
        lemma_count_all_push(groups.take(i), groups[i], t);
    }
}

/// Groups that are all empty hold no tile.
pub proof fn lemma_count_all_of_empties(groups: Seq<Seq<Tile>>, t: Tile)
    requires
        forall|i: int| 0 <= i < groups.len() ==> (#[trigger] groups[i]).len() == 0,
    ensures
        count_all(groups, t) == 0,
    decreases groups.len(),
{
    if groups.len() > 0 {
        lemma_count_all_of_empties(groups.drop_last(), t);
        assert(groups.last() =~= Seq::<Tile>::empty());
        lemma_count_empty(t);
    }
}

/// The tiles of `s` that are `color`, in their order.
pub open spec fn matching(s: Seq<Tile>, color: Tile) -> Seq<Tile> {
    s.filter(|t: Tile| t == color)
}

/// The tiles of `s` that are not `color`, in their order.
pub open spec fn others(s: Seq<Tile>, color: Tile) -> Seq<Tile> {
    s.filter(|t: Tile| t != color)
}

/// A sequence holds playable tiles only if and only if it holds no marker.
pub proof fn lemma_colors_no_marker(s: Seq<Tile>)
    ensures
        all_colors(s) <==> count(s, Tile::FirstPlayer) == 0,
{
    lemma_count_absent(s, Tile::FirstPlayer);
    if !all_colors(s) {
        let i = choose|i: int| 0 <= i < s.len() && !(#[trigger] s[i]).is_color();
        assert(s[i] == Tile::FirstPlayer);
        assert(s.contains(Tile::FirstPlayer));
    }
}

/// A sequence is split, tile by tile, between the tiles of a colour and
/// the others.
pub proof fn lemma_split_by_color(s: Seq<Tile>, color: Tile, t: Tile)
    ensures
        count(matching(s, color), t) == if t == color {
            count(s, t)
        } else {
            0
        },
        count(others(s, color), t) == if t == color {
            0
        } else {
            count(s, t)
        },
        all_same(matching(s, color), color),
        matching(s, color).len() == count(s, color),
        matching(s, color).len() + others(s, color).len() == s.len(),
        all_colors(s) ==> all_colors(others(s, color)),
    decreases s.len(),
{
    reveal(Seq::filter);
    if s.len() == 0 {
        assert(s =~= Seq::<Tile>::empty());
        lemma_count_empty(color);
        lemma_count_empty(t);
    } else {
        let d = s.drop_last();
        lemma_split_by_color(d, color, t);
        assert(s =~= d.push(s.last()));
        lemma_count_push(d, s.last(), color);
        lemma_count_push(d, s.last(), t);
        lemma_count_push(matching(d, color), s.last(), t);
        lemma_count_push(others(d, color), s.last(), t);
        if all_colors(s) {
            assert forall|i: int| 0 <= i < d.len() implies (#[trigger] d[i]).is_color() by {
                assert(d[i] == s[i]);
            }
            assert(s.last() == s[s.len() - 1]);
        }
    }
}

pub proof fn lemma_matching_push(s: Seq<Tile>, x: Tile, color: Tile)
    ensures
        matching(s.push(x), color) == if x == color {
            matching(s, color).push(x)
        } else {
            matching(s, color)
        },
        others(s.push(x), color) == if x == color {
            others(s, color)
        } else {
            others(s, color).push(x)
        },
{
    reveal(Seq::filter);
    assert(s.push(x).drop_last() =~= s);
}

/// Splits `tiles` into those of `color` and the others, each in their
/// order.
pub fn split_by_color(tiles: &Vec<Tile>, color: Tile) -> (parts: (Vec<Tile>, Vec<Tile>))
    ensures
        parts.0@ == matching(tiles@, color),
        parts.1@ == others(tiles@, color),
{
    let mut matched: Vec<Tile> = Vec::new();
    let mut rest: Vec<Tile> = Vec::new();
    let mut i: usize = 0;
    proof {
        reveal(Seq::filter);
        assert(tiles@.take(0) =~= Seq::<Tile>::empty());
    }
    while i < tiles.len()
        invariant
            i <= tiles@.len(),
            matched@ == matching(tiles@.take(i as int), color),
            rest@ == others(tiles@.take(i as int), color),
        decreases tiles@.len() - i,
    {
        proof {
            assert(tiles@.take(i + 1) =~= tiles@.take(i as int).push(tiles@[i as int]));
            lemma_matching_push(tiles@.take(i as int), tiles@[i as int], color);
        }
        if tiles[i] == color {
            matched.push(tiles[i]);
        } else {
            rest.push(tiles[i]);
        }
        i += 1;
    }
    assert(tiles@.take(tiles@.len() as int) =~= tiles@);
    (matched, rest)
}

/// Appends to `dst` the tiles of `src` from position `from` on.
pub(crate) fn append_from(dst: &mut Vec<Tile>, src: &Vec<Tile>, from: usize)
    requires
        from <= src@.len(),
    ensures
        final(dst)@ == old(dst)@ + src@.skip(from as int),
{
    let ghost before = dst@;
    let mut i: usize = from;
    while i < src.len()
        invariant
            from <= i <= src@.len(),
            dst@ == before + src@.subrange(from as int, i as int),
        decreases src@.len() - i,
    {
        dst.push(src[i]);
        i += 1;
    }
    assert(src@.subrange(from as int, src@.len() as int) =~= src@.skip(from as int));
}

/// Appends to `dst` the playable tiles of `src`, in their order.
pub fn append_colors(dst: &mut Vec<Tile>, src: &Vec<Tile>)
    ensures
        final(dst)@ == old(dst)@ + colors_of(src@),
{
    let ghost before = dst@;
    let mut i: usize = 0;
    proof {
        reveal(Seq::filter);
        assert(src@.take(0) =~= Seq::<Tile>::empty());
    }
    while i < src.len()
        invariant
            i <= src@.len(),
            dst@ == before + colors_of(src@.take(i as int)),
        decreases src@.len() - i,
    {
        proof {
            assert(src@.take(i + 1) =~= src@.take(i as int).push(src@[i as int]));
            lemma_colors_of_push(src@.take(i as int), src@[i as int]);
        }
        if src[i].is_playable() {
            dst.push(src[i]);
        }
        i += 1;
    }
    assert(src@.take(src@.len() as int) =~= src@);
}

/// How often `t` occurs in `tiles`.
pub fn count_in(tiles: &Vec<Tile>, t: Tile) -> (n: usize)
    ensures
        n == count(tiles@, t),
        n <= tiles@.len(),
{
    let mut n: usize = 0;
    let mut i: usize = 0;
    proof {
        assert(tiles@.take(0) =~= Seq::<Tile>::empty());
        lemma_count_empty(t);
    }
    while i < tiles.len()
        invariant
            i <= tiles@.len(),
            n <= i,
            n == count(tiles@.take(i as int), t),
        decreases tiles@.len() - i,
    {
        proof {
            assert(tiles@.take(i + 1) =~= tiles@.take(i as int).push(tiles@[i as int]));
            lemma_count_push(tiles@.take(i as int), tiles@[i as int], t);
        }
        if tiles[i] == t {
            n += 1;
        }
        i += 1;
    }
    assert(tiles@.take(tiles@.len() as int) =~= tiles@);
    n
}

/// Whether every tile of `tiles` is `t`.
pub fn is_all(tiles: &Vec<Tile>, t: Tile) -> (b: bool)
    ensures
        b == all_same(tiles@, t),
{
    let mut i: usize = 0;
    while i < tiles.len()
        invariant
            i <= tiles@.len(),
            forall|j: int| 0 <= j < i ==> #[trigger] tiles@[j] == t,
        decreases tiles@.len() - i,
    {
        if tiles[i] != t {
            return false;
        }
        i += 1;
    }
    true
}

/// Whether every tile of `tiles` is a playable colour.
pub fn is_all_colors(tiles: &Vec<Tile>) -> (b: bool)
    ensures
        b == all_colors(tiles@),
{
    let mut i: usize = 0;
    while i < tiles.len()
        invariant
            i <= tiles@.len(),
            forall|j: int| 0 <= j < i ==> (#[trigger] tiles@[j]).is_color(),
        decreases tiles@.len() - i,
    {
        if !tiles[i].is_playable() {
            return false;
        }
        i += 1;
    }
    true
}

} // verus!
