use flood_tiles::tile::{InputColor, InputShape, Tile};

#[test]
fn color_tiles_carry_their_shape() {
    let pairs = [
        (InputColor::Red, InputShape::Heart),
        (InputColor::Green, InputShape::Triangle),
        (InputColor::Blue, InputShape::Diamond),
        (InputColor::Yellow, InputShape::Ball),
        (InputColor::Cyan, InputShape::Club),
        (InputColor::Magenta, InputShape::Spade),
    ];
    for (color, shape) in pairs {
        assert_eq!(Tile::color(color), Tile { shape, color });
        assert_eq!(Tile::shape(shape), Tile { shape, color });
    }
}

#[test]
fn block_shape_gives_spade_tile() {
    assert_eq!(
        Tile::shape(InputShape::Block),
        Tile { shape: InputShape::Spade, color: InputColor::Magenta }
    );
}

#[test]
fn tiles_by_number() {
    assert_eq!(Tile::from_index(0), Tile::color(InputColor::Red));
    assert_eq!(Tile::from_index(1), Tile::color(InputColor::Green));
    assert_eq!(Tile::from_index(2), Tile::color(InputColor::Blue));
    assert_eq!(Tile::from_index(3), Tile::color(InputColor::Yellow));
    assert_eq!(Tile::from_index(4), Tile::color(InputColor::Cyan));
    assert_eq!(Tile::from_index(5), Tile::color(InputColor::Magenta));
    assert_eq!(Tile::from_index(9), Tile::color(InputColor::Magenta));
}

#[test]
fn pairing_check() {
    assert!(Tile::color(InputColor::Cyan).is_paired());
    assert!(!Tile { shape: InputShape::Heart, color: InputColor::Blue }.is_paired());
    assert!(!Tile { shape: InputShape::Block, color: InputColor::Magenta }.is_paired());
}

#[test]
fn random_tiles_are_paired_and_varied() {
    let mut seen = [false; 6];
    for _ in 0..600 {
        let t = Tile::new();
        assert!(t.is_paired());
        let i = match t.color {
            InputColor::Red => 0,
            InputColor::Green => 1,
            InputColor::Blue => 2,
            InputColor::Yellow => 3,
            InputColor::Cyan => 4,
            InputColor::Magenta => 5,
        };
        seen[i] = true;
    }
    assert!(seen.iter().all(|s| *s));
}

#[test]
fn shape_glyphs() {
    assert_eq!(InputShape::Heart.symbol(), "\u{2665}");
    assert_eq!(InputShape::Triangle.symbol(), "\u{25b2}");
    assert_eq!(InputShape::Diamond.symbol(), "\u{2666}");
    assert_eq!(InputShape::Ball.symbol(), "\u{25cf}");
    assert_eq!(InputShape::Club.symbol(), "\u{2663}");
    assert_eq!(InputShape::Spade.symbol(), "\u{2660}");
    assert_eq!(InputShape::Block.symbol(), "\u{2588}");
}
