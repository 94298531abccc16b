use azul::{GameError, Tile, Wall};

#[test]
fn wall_pattern_shifts_each_row() {
    assert_eq!(Wall::color_at(0, 0), Tile::Blue);
    assert_eq!(Wall::color_at(0, 4), Tile::Teal);
    assert_eq!(Wall::color_at(1, 0), Tile::Teal);
    assert_eq!(Wall::color_at(1, 1), Tile::Blue);
    assert_eq!(Wall::color_at(4, 0), Tile::Yellow);
    for row in 0..5 {
        for col in 0..5 {
            let color = Wall::color_at(row, col);
            assert_eq!(Wall::column_for(row, color), col);
        }
    }
}

#[test]
fn tile_goes_to_the_cell_of_its_color() {
    let mut wall = Wall::new();
    assert_eq!(wall.place(3, Tile::Red), Ok(1));
    let col = Wall::column_for(3, Tile::Red);
    assert_eq!(col, 0);
    assert_eq!(wall.get(3, col), Some(Tile::Red));
    for row in 0..5 {
        for c in 0..5 {
            if (row, c) != (3, col) {
                assert_eq!(wall.get(row, c), None);
            }
        }
    }
    assert_eq!(wall.count(Tile::Red), 1);
    assert_eq!(wall.count(Tile::Blue), 0);
    assert_eq!(wall.tiles(), 1);
}

#[test]
fn no_row_or_column_holds_a_color_twice() {
    let mut wall = Wall::new();
    for row in 0..5 {
        for k in 0..5 {
            let color = Tile::from_index(k).unwrap();
            assert!(wall.place(row, color).is_ok());
        }
    }
    for a in 0..5 {
        for b in 0..5 {
            for c in 0..5 {
                if b != c {
                    assert_ne!(wall.get(a, b), wall.get(a, c));
                    assert_ne!(wall.get(b, a), wall.get(c, a));
                }
            }
        }
    }
}

#[test]
fn isolated_tile_scores_one() {
    let mut wall = Wall::new();
    assert_eq!(wall.place(2, Tile::Blue), Ok(1));
}

#[test]
fn horizontal_run_scores_its_length() {
    let mut wall = Wall::new();
    assert_eq!(wall.place(0, Tile::Blue), Ok(1));
    assert_eq!(wall.place(0, Tile::Red), Ok(1));
    assert_eq!(wall.place(0, Tile::Yellow), Ok(3));
}

#[test]
fn vertical_run_scores_its_length() {
    let mut wall = Wall::new();
    assert_eq!(wall.place(0, Tile::Blue), Ok(1));
    assert_eq!(wall.place(1, Tile::Teal), Ok(2));
    assert_eq!(wall.place(2, Tile::Black), Ok(3));
}

#[test]
fn one_horizontal_and_two_vertical_neighbors_score_five() {
    let mut wall = Wall::new();
    assert_eq!(wall.place(2, Tile::Teal), Ok(1));
    assert_eq!(Wall::column_for(2, Tile::Teal), 1);
    assert_eq!(wall.place(0, Tile::Red), Ok(1));
    assert_eq!(Wall::column_for(0, Tile::Red), 2);
    assert_eq!(wall.place(1, Tile::Yellow), Ok(2));
    assert_eq!(Wall::column_for(1, Tile::Yellow), 2);
    assert_eq!(Wall::column_for(2, Tile::Blue), 2);
    assert_eq!(wall.place(2, Tile::Blue), Ok(5));
    assert_eq!(wall.score_at(2, 2), 5);
}

#[test]
fn gap_breaks_a_run() {
    let mut wall = Wall::new();
    assert_eq!(wall.place(0, Tile::Blue), Ok(1));
    assert_eq!(wall.place(0, Tile::Yellow), Ok(2));
    assert_eq!(wall.place(0, Tile::Teal), Ok(1));
    assert_eq!(wall.place(0, Tile::Black), Ok(2));
    assert_eq!(wall.place(0, Tile::Red), Ok(5));
}

#[test]
fn taken_cell_is_an_internal_inconsistency() {
    let mut wall = Wall::new();
    assert_eq!(wall.place(1, Tile::Red), Ok(1));
    let before = wall.cells();
    assert_eq!(wall.place(1, Tile::Red), Err(GameError::InternalInconsistency));
    assert_eq!(wall.cells(), before);
}

#[test]
fn missing_row_and_marker_are_refused() {
    let mut wall = Wall::new();
    assert_eq!(wall.place(5, Tile::Red), Err(GameError::InternalInconsistency));
    assert_eq!(
        wall.place(0, Tile::FirstPlayer),
        Err(GameError::InternalInconsistency)
    );
    assert_eq!(wall.tiles(), 0);
    assert!(!wall.accepts(5, Tile::Red));
    assert!(!wall.accepts(0, Tile::FirstPlayer));
    assert!(wall.accepts(0, Tile::Red));
}

#[test]
fn full_row_earns_two() {
    let mut wall = Wall::new();
    assert!(!wall.has_full_row());
    for k in 0..5 {
        wall.place(3, Tile::from_index(k).unwrap()).unwrap();
    }
    assert!(wall.has_full_row());
    assert_eq!(wall.full_rows(), 1);
    assert_eq!(wall.full_columns(), 0);
    assert_eq!(wall.full_colors(), 0);
    assert_eq!(wall.bonus(), 2);
}

#[test]
fn full_column_earns_seven() {
    let mut wall = Wall::new();
    for row in 0..5 {
        wall.place(row, Wall::color_at(row, 0)).unwrap();
    }
    assert_eq!(wall.full_rows(), 0);
    assert_eq!(wall.full_columns(), 1);
    assert_eq!(wall.full_colors(), 0);
    assert_eq!(wall.bonus(), 7);
}

#[test]
fn full_color_earns_ten() {
    let mut wall = Wall::new();
    for row in 0..5 {
        assert_eq!(wall.place(row, Tile::Black), Ok(1));
    }
    assert_eq!(wall.full_rows(), 0);
    assert_eq!(wall.full_columns(), 0);
    assert_eq!(wall.full_colors(), 1);
    assert_eq!(wall.count(Tile::Black), 5);
    assert_eq!(wall.bonus(), 10);
}

#[test]
fn full_wall_earns_every_bonus() {
    let mut wall = Wall::new();
    for row in 0..5 {
        for k in 0..5 {
            wall.place(row, Tile::from_index(k).unwrap()).unwrap();
        }
    }
    assert_eq!(wall.bonus(), 5 * 2 + 5 * 7 + 5 * 10);
    assert_eq!(wall.tiles(), 25);
}

#[test]
fn wall_from_cells_checks_the_pattern() {
    let mut cells = [[None; 5]; 5];
    cells[1][0] = Some(Tile::Teal);
    let wall = Wall::from_cells(cells).unwrap();
    assert_eq!(wall.get(1, 0), Some(Tile::Teal));
    assert_eq!(wall.cells(), cells);
    cells[1][1] = Some(Tile::Red);
    assert!(Wall::from_cells(cells).is_none());
    let mut marked = [[None; 5]; 5];
    marked[0][0] = Some(Tile::FirstPlayer);
    assert!(Wall::from_cells(marked).is_none());
}

#[test]
fn wall_text_has_a_dot_for_each_empty_cell() {
    let mut wall = Wall::new();
    wall.place(0, Tile::Blue).unwrap();
    wall.place(1, Tile::Blue).unwrap();
    wall.place(4, Tile::Yellow).unwrap();
    assert_eq!(wall.to_text(), "B.....B.............Y....");
}

#[test]
fn outside_the_grid_there_is_nothing() {
    let mut wall = Wall::new();
    wall.place(4, Tile::Teal).unwrap();
    assert_eq!(wall.get(5, 0), None);
    assert_eq!(wall.get(0, 5), None);
    assert!(!wall.is_occupied(7, 7));
    assert!(wall.is_occupied(4, Wall::column_for(4, Tile::Teal)));
}
