use azul::floor::{FLOOR_CAPACITY, OVERFLOW_COST};
use azul::{FloorLine, PlayerColor, Tile};

#[test]
fn tile_symbols() {
    assert_eq!(Tile::Blue.symbol(), 'B');
    assert_eq!(Tile::Yellow.symbol(), 'Y');
    assert_eq!(Tile::Red.symbol(), 'R');
    assert_eq!(Tile::Black.symbol(), 'K');
    assert_eq!(Tile::Teal.symbol(), 'T');
    assert_eq!(Tile::FirstPlayer.symbol(), '1');
}

#[test]
fn tile_text_is_its_symbol() {
    assert_eq!(Tile::Black.to_text(), "K");
    assert_eq!(Tile::FirstPlayer.to_text(), "1");
}

#[test]
fn player_color_symbols() {
    assert_eq!(PlayerColor::White.symbol(), '1');
    assert_eq!(PlayerColor::Black.symbol(), '2');
    assert_eq!(PlayerColor::Gray.symbol(), '3');
    assert_eq!(PlayerColor::Brown.symbol(), '4');
    assert_eq!(PlayerColor::Gray.to_text(), "3");
}

#[test]
fn seats_follow_the_order_of_the_colors() {
    assert_eq!(PlayerColor::from_seat(0), Some(PlayerColor::White));
    assert_eq!(PlayerColor::from_seat(1), Some(PlayerColor::Black));
    assert_eq!(PlayerColor::from_seat(2), Some(PlayerColor::Gray));
    assert_eq!(PlayerColor::from_seat(3), Some(PlayerColor::Brown));
    assert_eq!(PlayerColor::from_seat(4), None);
    assert_eq!(PlayerColor::Brown.seat(), 3);
}

#[test]
fn tile_indices() {
    assert_eq!(Tile::from_index(0), Some(Tile::Blue));
    assert_eq!(Tile::from_index(4), Some(Tile::Teal));
    assert_eq!(Tile::from_index(5), None);
    assert_eq!(Tile::Red.index(), 2);
    assert_eq!(Tile::FirstPlayer.index(), 5);
    assert!(Tile::Teal.is_playable());
    assert!(!Tile::FirstPlayer.is_playable());
}

#[test]
fn floor_constants() {
    assert_eq!(FLOOR_CAPACITY, 7);
    assert_eq!(OVERFLOW_COST, [-1, -1, -2, -2, -2, -3, -3]);
}

#[test]
fn floor_points_follow_the_cumulative_table() {
    let expected = [0, -1, -2, -4, -6, -8, -11, -14];
    let mut floor = FloorLine::new();
    assert_eq!(floor.points(), expected[0]);
    for held in 1..=7 {
        assert_eq!(floor.add(Tile::Red), None);
        assert_eq!(floor.len(), held);
        assert_eq!(floor.points(), expected[held]);
    }
}

#[test]
fn floor_points_never_rise() {
    let mut floor = FloorLine::new();
    let mut last = floor.points();
    for _ in 0..10 {
        floor.add(Tile::Blue);
        let now = floor.points();
        assert!(now <= last);
        assert!(now <= 0);
        last = now;
    }
}

#[test]
fn eighth_tile_is_handed_back_and_changes_nothing() {
    let mut floor = FloorLine::new();
    for _ in 0..7 {
        assert_eq!(floor.add(Tile::Teal), None);
    }
    let before = floor.points();
    assert_eq!(before, -14);
    assert_eq!(floor.add(Tile::Yellow), Some(Tile::Yellow));
    assert_eq!(floor.len(), 7);
    assert_eq!(floor.points(), before);
    assert_eq!(floor.tiles(), vec![Tile::Teal; 7]);
}

#[test]
fn floor_add_all_keeps_order_and_returns_excess() {
    let mut floor = FloorLine::new();
    for _ in 0..5 {
        floor.add(Tile::Blue);
    }
    let offered = vec![Tile::Red, Tile::Yellow, Tile::Black, Tile::Teal];
    let excess = floor.add_all(&offered[1..].to_vec());
    assert_eq!(excess, vec![Tile::Teal]);
    assert_eq!(
        floor.tiles(),
        vec![
            Tile::Blue,
            Tile::Blue,
            Tile::Blue,
            Tile::Blue,
            Tile::Blue,
            Tile::Yellow,
            Tile::Black
        ]
    );
}

#[test]
fn floor_clear_returns_everything() {
    let mut floor = FloorLine::new();
    floor.add(Tile::FirstPlayer);
    floor.add(Tile::Red);
    assert_eq!(floor.clear(), vec![Tile::FirstPlayer, Tile::Red]);
    assert_eq!(floor.len(), 0);
    assert_eq!(floor.points(), 0);
}

#[test]
fn floor_from_tiles_refuses_more_than_seven() {
    assert!(FloorLine::from_tiles(vec![Tile::Red; 7]).is_some());
    assert!(FloorLine::from_tiles(vec![Tile::Red; 8]).is_none());
}

#[test]
fn floor_text() {
    let mut floor = FloorLine::new();
    floor.add(Tile::FirstPlayer);
    floor.add(Tile::Black);
    floor.add(Tile::Blue);
    assert_eq!(floor.to_text(), "1KB");
}
