use azul::bag::TILES_PER_COLOR;
use azul::{Bag, Center, Factory, GameError, Tile};

fn playable() -> Vec<Tile> {
    (0..5).map(|k| Tile::from_index(k).unwrap()).collect()
}

#[test]
fn new_bag_holds_twenty_of_each_color() {
    let bag = Bag::new(7);
    assert_eq!(TILES_PER_COLOR, 20);
    assert_eq!(bag.len(), 100);
    assert_eq!(bag.lid_len(), 0);
    assert!(!bag.lid_has_marker());
    for color in playable() {
        assert_eq!(bag.count(color), 20);
        assert_eq!(bag.lid_count(color), 0);
    }
    assert_eq!(bag.count(Tile::FirstPlayer), 0);
}

#[test]
fn new_bag_is_shuffled() {
    let mut sorted = Vec::new();
    for color in playable() {
        for _ in 0..20 {
            sorted.push(color);
        }
    }
    assert_ne!(Bag::new(1).tiles(), sorted);
    assert_ne!(Bag::new(1).tiles(), Bag::new(2).tiles());
}

#[test]
fn same_seed_gives_the_same_bag() {
    assert_eq!(Bag::new(42).tiles(), Bag::new(42).tiles());
    assert_eq!(Bag::new(42).seed(), Bag::new(42).seed());
}

#[test]
fn shuffle_keeps_the_tiles_and_moves_the_seed() {
    let mut bag = Bag::new(3);
    let before = bag.tiles();
    let seed = bag.seed();
    bag.shuffle();
    assert_ne!(bag.tiles(), before);
    assert_ne!(bag.seed(), seed);
    assert_eq!(bag.len(), 100);
    for color in playable() {
        assert_eq!(bag.count(color), 20);
    }
}

#[test]
fn take_draws_from_the_end_of_the_bag() {
    let mut bag = Bag::new(11);
    let before = bag.tiles();
    let drawn = bag.take(4);
    assert_eq!(
        drawn,
        vec![before[99], before[98], before[97], before[96]]
    );
    assert_eq!(bag.tiles(), before[..96].to_vec());
    assert_eq!(bag.lid_len(), 0);
}

#[test]
fn take_of_exactly_the_bag_leaves_the_lid_alone() {
    let mut bag =
        Bag::from_parts(vec![Tile::Blue, Tile::Red], vec![Tile::Yellow], false, 5).unwrap();
    assert_eq!(bag.take(2), vec![Tile::Red, Tile::Blue]);
    assert_eq!(bag.len(), 0);
    assert_eq!(bag.lid(), vec![Tile::Yellow]);
    assert_eq!(bag.seed(), 5);
}

#[test]
fn empty_bag_is_refilled_from_the_lid() {
    let mut bag = Bag::from_parts(
        vec![Tile::Blue],
        vec![Tile::Red, Tile::Red, Tile::Yellow],
        false,
        5,
    )
    .unwrap();
    let drawn = bag.take(3);
    assert_eq!(drawn.len(), 3);
    assert_eq!(drawn[0], Tile::Blue);
    assert_eq!(bag.lid_len(), 0);
    assert_eq!(bag.len(), 1);
    let mut all = drawn.clone();
    all.extend(bag.tiles());
    assert_eq!(all.iter().filter(|t| **t == Tile::Blue).count(), 1);
    assert_eq!(all.iter().filter(|t| **t == Tile::Red).count(), 2);
    assert_eq!(all.iter().filter(|t| **t == Tile::Yellow).count(), 1);
}

#[test]
fn short_draw_returns_what_is_left() {
    let mut bag =
        Bag::from_parts(vec![Tile::Blue, Tile::Red], vec![Tile::Teal], false, 9).unwrap();
    let drawn = bag.take(4);
    assert_eq!(drawn.len(), 3);
    assert_eq!(drawn[..2], [Tile::Red, Tile::Blue]);
    assert_eq!(drawn[2], Tile::Teal);
    assert_eq!(bag.len(), 0);
    assert_eq!(bag.lid_len(), 0);
    assert_eq!(bag.take(4), vec![]);
}

#[test]
fn take_of_nothing_changes_nothing() {
    let mut bag = Bag::new(8);
    let before = bag.tiles();
    assert_eq!(bag.take(0), vec![]);
    assert_eq!(bag.tiles(), before);
}

#[test]
fn discard_puts_tiles_in_the_lid() {
    let mut bag = Bag::new(1);
    bag.take(3);
    bag.discard(vec![Tile::Red, Tile::Blue, Tile::Red]);
    assert_eq!(bag.lid(), vec![Tile::Red, Tile::Blue, Tile::Red]);
    assert_eq!(bag.lid_count(Tile::Red), 2);
    assert!(!bag.lid_has_marker());
    assert_eq!(bag.len(), 97);
}

#[test]
fn discarded_marker_rests_in_the_lid_and_is_no_tile() {
    let mut bag = Bag::new(1);
    bag.discard(vec![Tile::FirstPlayer, Tile::Teal]);
    assert!(bag.lid_has_marker());
    assert_eq!(bag.lid(), vec![Tile::Teal]);
    assert!(bag.take_marker());
    assert!(!bag.lid_has_marker());
    assert!(!bag.take_marker());
}

#[test]
fn bag_from_parts_refuses_the_marker_among_the_tiles() {
    assert!(Bag::from_parts(vec![Tile::FirstPlayer], vec![], false, 0).is_none());
    assert!(Bag::from_parts(vec![], vec![Tile::FirstPlayer], false, 0).is_none());
    assert!(Bag::from_parts(vec![Tile::Red], vec![Tile::Blue], true, 0).is_some());
}

#[test]
fn factory_is_filled_with_four_tiles() {
    let mut bag = Bag::new(21);
    let before = bag.tiles();
    let mut factory = Factory::new();
    assert!(factory.is_empty());
    assert_eq!(factory.fill(&mut bag), Ok(()));
    assert_eq!(factory.len(), 4);
    assert_eq!(
        factory.tiles(),
        vec![before[99], before[98], before[97], before[96]]
    );
    assert_eq!(bag.len(), 96);
}

#[test]
fn factory_takes_less_when_the_supply_runs_out() {
    let mut bag = Bag::from_parts(vec![Tile::Red; 6], vec![], false, 0).unwrap();
    let mut first = Factory::new();
    let mut second = Factory::new();
    let mut third = Factory::new();
    assert_eq!(first.fill(&mut bag), Ok(()));
    assert_eq!(second.fill(&mut bag), Ok(()));
    assert_eq!(third.fill(&mut bag), Ok(()));
    assert_eq!(first.len(), 4);
    assert_eq!(second.len(), 2);
    assert_eq!(third.len(), 0);
}

#[test]
fn factory_that_holds_tiles_is_not_filled() {
    let mut bag = Bag::new(21);
    let mut factory = Factory::new();
    factory.fill(&mut bag).unwrap();
    let held = factory.tiles();
    let left = bag.tiles();
    assert_eq!(factory.fill(&mut bag), Err(GameError::InternalInconsistency));
    assert_eq!(factory.tiles(), held);
    assert_eq!(bag.tiles(), left);
}

#[test]
fn factory_offer_splits_by_color() {
    let mut factory =
        Factory::from_tiles(vec![Tile::Red, Tile::Blue, Tile::Red, Tile::Teal]).unwrap();
    assert_eq!(factory.count(Tile::Red), 2);
    let (matched, rest) = factory.offer(Tile::Red).unwrap();
    assert_eq!(matched, vec![Tile::Red, Tile::Red]);
    assert_eq!(rest, vec![Tile::Blue, Tile::Teal]);
    assert!(factory.is_empty());
}

#[test]
fn factory_offer_of_an_absent_color_is_an_invalid_selection() {
    let mut factory = Factory::from_tiles(vec![Tile::Red, Tile::Blue]).unwrap();
    assert_eq!(factory.offer(Tile::Teal), Err(GameError::InvalidSelection));
    assert_eq!(
        factory.offer(Tile::FirstPlayer),
        Err(GameError::InvalidSelection)
    );
    assert_eq!(factory.tiles(), vec![Tile::Red, Tile::Blue]);
    assert_eq!(factory.to_text(), "RB");
}

#[test]
fn factory_from_tiles_holds_four_colored_tiles_at_most() {
    assert!(Factory::from_tiles(vec![Tile::Red; 4]).is_some());
    assert!(Factory::from_tiles(vec![Tile::Red; 5]).is_none());
    assert!(Factory::from_tiles(vec![Tile::FirstPlayer]).is_none());
}

#[test]
fn center_starts_with_the_marker_alone() {
    let center = Center::new();
    assert!(center.has_marker());
    assert_eq!(center.len(), 0);
    assert_eq!(center.contents(), vec![Tile::FirstPlayer]);
    assert_eq!(center.to_text(), "1");
}

#[test]
fn center_offer_leaves_the_other_colors() {
    let mut center = Center::new();
    center.receive(vec![Tile::Red, Tile::Blue, Tile::Red]);
    center.receive(vec![Tile::Teal]);
    assert_eq!(
        center.tiles(),
        vec![Tile::Red, Tile::Blue, Tile::Red, Tile::Teal]
    );
    assert_eq!(center.offer(Tile::Red), Ok(vec![Tile::Red, Tile::Red]));
    assert_eq!(center.tiles(), vec![Tile::Blue, Tile::Teal]);
    assert!(center.has_marker());
    assert_eq!(center.offer(Tile::Red), Err(GameError::InvalidSelection));
    assert_eq!(
        center.offer(Tile::FirstPlayer),
        Err(GameError::InvalidSelection)
    );
    assert_eq!(center.tiles(), vec![Tile::Blue, Tile::Teal]);
    assert_eq!(center.count(Tile::Blue), 1);
}

#[test]
fn center_marker_is_taken_once() {
    let mut center = Center::new();
    assert!(center.take_first_player_marker());
    assert!(!center.has_marker());
    assert!(!center.take_first_player_marker());
    center.receive(vec![Tile::FirstPlayer]);
    assert!(center.has_marker());
    assert_eq!(center.len(), 0);
    assert!(Center::from_tiles(vec![Tile::FirstPlayer], false).is_none());
}
