use flood_tiles::board::{Board, CELL_COUNT, COLUMNS, HEIGHT, WIDTH};
use flood_tiles::tile::{InputColor, InputShape, Tile};

fn board_of(f: impl Fn(u16, u16) -> Tile) -> Board {
    let mut cells = Vec::new();
    for y in 0..=HEIGHT {
        for x in 0..=WIDTH {
            cells.push(f(x, y));
        }
    }
    Board::from_tiles(cells).unwrap()
}

fn snapshot(b: &Board) -> Vec<Tile> {
    let mut cells = Vec::new();
    for y in 0..=HEIGHT {
        for x in 0..=WIDTH {
            cells.push(b.tile_at(x, y));
        }
    }
    cells
}

const RED: InputColor = InputColor::Red;
const GREEN: InputColor = InputColor::Green;
const BLUE: InputColor = InputColor::Blue;

#[test]
fn from_tiles_checks_size_and_pairing() {
    assert!(Board::from_tiles(vec![Tile::color(RED); CELL_COUNT - 1]).is_none());
    assert!(Board::from_tiles(vec![Tile::color(RED); CELL_COUNT + 1]).is_none());
    let mut cells = vec![Tile::color(RED); CELL_COUNT];
    assert!(Board::from_tiles(cells.clone()).is_some());
    cells[100] = Tile { shape: InputShape::Heart, color: GREEN };
    assert!(Board::from_tiles(cells).is_none());
}

#[test]
fn tiles_are_laid_out_row_by_row() {
    let mut cells = vec![Tile::color(RED); CELL_COUNT];
    cells[3 * COLUMNS + 5] = Tile::color(BLUE);
    let b = Board::from_tiles(cells).unwrap();
    assert_eq!(b.tile_at(5, 3), Tile::color(BLUE));
    assert_eq!(b.tile_at(3, 5), Tile::color(RED));
}

#[test]
fn strip_red_red_blue_filled_with_blue() {
    let mut b = board_of(|x, y| match (x, y) {
        (0, 0) | (1, 0) => Tile::color(RED),
        (2, 0) => Tile::color(BLUE),
        _ => Tile::color(GREEN),
    });
    b.change_tile_by_color(0, 0, BLUE, None);
    assert_eq!(b.tile_at(0, 0), Tile::color(BLUE));
    assert_eq!(b.tile_at(1, 0), Tile::color(BLUE));
    assert_eq!(b.tile_at(2, 0), Tile::color(BLUE));
    assert_eq!(b.tile_at(3, 0), Tile::color(GREEN));
    assert_eq!(b.tile_at(0, 1), Tile::color(GREEN));
}

#[test]
fn origin_move_to_own_color_changes_nothing() {
    let b0 = board_of(|x, y| if (x + y) % 2 == 0 { Tile::color(RED) } else { Tile::color(GREEN) });
    let mut b = board_of(|x, y| if (x + y) % 2 == 0 { Tile::color(RED) } else { Tile::color(GREEN) });
    b.change_tile_by_color(0, 0, RED, None);
    assert_eq!(snapshot(&b), snapshot(&b0));
    b.change_tile_by_shape(0, 0, InputShape::Heart, None);
    assert_eq!(snapshot(&b), snapshot(&b0));
}

#[test]
fn fill_changes_exactly_the_connected_region() {
    // An L of red from the origin, a separate red cell, green elsewhere.
    let layout = |x: u16, y: u16| {
        if (y == 0 && x <= 3) || (x == 0 && y <= 2) || (x == 10 && y == 10) || (x == 5 && y == 0) {
            Tile::color(RED)
        } else {
            Tile::color(GREEN)
        }
    };
    let before = snapshot(&board_of(layout));
    let mut b = board_of(layout);
    b.change_tile_by_color(0, 0, BLUE, None);
    let after = snapshot(&b);
    let mut changed = 0;
    for y in 0..=HEIGHT {
        for x in 0..=WIDTH {
            let i = y as usize * COLUMNS + x as usize;
            let in_region = (y == 0 && x <= 3) || (x == 0 && y <= 2);
            if in_region {
                assert_eq!(after[i], Tile::color(BLUE));
                changed += 1;
            } else {
                assert_eq!(after[i], before[i]);
            }
        }
    }
    assert_eq!(changed, 6);
    assert_eq!(b.tile_at(10, 10), Tile::color(RED));
    assert_eq!(b.tile_at(5, 0), Tile::color(RED));
}

#[test]
fn origin_move_sets_origin_tile() {
    let mut b = board_of(|_, _| Tile::color(GREEN));
    b.change_tile_by_color(0, 0, InputColor::Magenta, None);
    assert_eq!(b.tile_at(0, 0), Tile::color(InputColor::Magenta));
    assert!(b.is_won());
    b.change_tile_by_shape(0, 0, InputShape::Ball, None);
    assert_eq!(b.tile_at(0, 0).shape, InputShape::Ball);
    assert_eq!(b.tile_at(WIDTH, HEIGHT), Tile::color(InputColor::Yellow));
}

#[test]
fn shape_fill_follows_shape_region() {
    let mut b = board_of(|x, _| if x < 4 { Tile::shape(InputShape::Club) } else { Tile::shape(InputShape::Heart) });
    b.change_tile_by_shape(0, 0, InputShape::Diamond, None);
    for y in 0..=HEIGHT {
        for x in 0..=WIDTH {
            let want = if x < 4 { Tile::color(BLUE) } else { Tile::color(RED) };
            assert_eq!(b.tile_at(x, y), want);
        }
    }
}

#[test]
fn fill_from_inner_cell() {
    let mut b = board_of(|x, y| if x >= 5 && y >= 5 { Tile::color(RED) } else { Tile::color(GREEN) });
    b.change_tile_by_color(8, 8, InputColor::Cyan, None);
    assert_eq!(b.tile_at(WIDTH, HEIGHT), Tile::color(InputColor::Cyan));
    assert_eq!(b.tile_at(5, 5), Tile::color(InputColor::Cyan));
    assert_eq!(b.tile_at(4, 5), Tile::color(GREEN));
    assert_eq!(b.tile_at(0, 0), Tile::color(GREEN));
}

#[test]
fn fill_away_from_origin_with_its_own_color_keeps_board() {
    let layout = |x: u16, y: u16| if x == y { Tile::color(RED) } else { Tile::color(GREEN) };
    let before = snapshot(&board_of(layout));
    let mut b = board_of(layout);
    b.change_tile_by_color(3, 4, GREEN, None);
    assert_eq!(snapshot(&b), before);
}

#[test]
fn uniform_board_is_won() {
    let b = board_of(|_, _| Tile::color(InputColor::Yellow));
    assert!(b.is_won());
}

#[test]
fn far_corner_difference_is_not_won() {
    let b = board_of(|x, y| {
        if x == WIDTH && y == HEIGHT { Tile::color(RED) } else { Tile::color(InputColor::Yellow) }
    });
    assert!(!b.is_won());
}

#[test]
fn generate_applies_copies_in_order() {
    let mut tiles = vec![Tile::color(RED); CELL_COUNT];
    tiles[0] = Tile::color(BLUE);
    let b = Board::generate(tiles, &vec![(0, 0), (1, 0), (5, 5)]);
    assert_eq!(b.tile_at(0, 0), Tile::color(BLUE));
    assert_eq!(b.tile_at(1, 0), Tile::color(BLUE));
    assert_eq!(b.tile_at(2, 0), Tile::color(BLUE));
    assert_eq!(b.tile_at(3, 0), Tile::color(RED));
    assert_eq!(b.tile_at(6, 5), Tile::color(RED));
}

#[test]
fn smear_copies_right() {
    let mut b = board_of(|x, y| if x == 15 && y == 14 { Tile::color(BLUE) } else { Tile::color(RED) });
    b.smear(15, 14);
    assert_eq!(b.tile_at(16, 14), Tile::color(BLUE));
    assert_eq!(b.tile_at(0, 0), Tile::color(RED));
}

#[test]
fn new_board_fills_every_cell() {
    for _ in 0..20 {
        let b = Board::new();
        let cells = snapshot(&b);
        assert_eq!(cells.len(), 255);
        assert!(cells.iter().all(|t| t.is_paired()));
    }
}
