use flood_tiles::input::{InputOptions, Mode};
use flood_tiles::tile::{InputColor, InputShape};

#[test]
fn color_letters_in_either_case() {
    let m = Mode::Color;
    assert_eq!(InputOptions::parse(m, "R"), Some(InputOptions::Red));
    assert_eq!(InputOptions::parse(m, "g"), Some(InputOptions::Green));
    assert_eq!(InputOptions::parse(m, "b"), Some(InputOptions::Blue));
    assert_eq!(InputOptions::parse(m, "Y"), Some(InputOptions::Yellow));
    assert_eq!(InputOptions::parse(m, "c"), Some(InputOptions::Cyan));
    assert_eq!(InputOptions::parse(m, "M"), Some(InputOptions::Magenta));
    assert_eq!(InputOptions::parse(m, "q"), Some(InputOptions::Quit));
    assert_eq!(InputOptions::parse(m, "H"), None);
}

#[test]
fn shape_letters_in_either_case() {
    for m in [Mode::Shape, Mode::Both] {
        assert_eq!(InputOptions::parse(m, "h"), Some(InputOptions::Heart));
        assert_eq!(InputOptions::parse(m, "T"), Some(InputOptions::Triangle));
        assert_eq!(InputOptions::parse(m, "d"), Some(InputOptions::Diamond));
        assert_eq!(InputOptions::parse(m, "B"), Some(InputOptions::Ball));
        assert_eq!(InputOptions::parse(m, "c"), Some(InputOptions::Club));
        assert_eq!(InputOptions::parse(m, "S"), Some(InputOptions::Spade));
        assert_eq!(InputOptions::parse(m, "Q"), Some(InputOptions::Quit));
        assert_eq!(InputOptions::parse(m, "R"), None);
    }
}

#[test]
fn lines_other_than_one_letter_are_refused() {
    assert_eq!(InputOptions::parse(Mode::Color, ""), None);
    assert_eq!(InputOptions::parse(Mode::Color, "RG"), None);
    assert_eq!(InputOptions::parse(Mode::Shape, "x"), None);
    assert_eq!(Mode::parse("sc"), None);
    assert_eq!(Mode::parse(""), None);
}

#[test]
fn mode_letters() {
    assert_eq!(Mode::parse("s"), Some(Mode::Shape));
    assert_eq!(Mode::parse("C"), Some(Mode::Color));
    assert_eq!(Mode::parse("b"), Some(Mode::Both));
    assert_eq!(Mode::parse("x"), None);
    assert_eq!(Mode::from_letter('B'), Some(Mode::Both));
    assert_eq!(InputOptions::from_letter(Mode::Color, 'm'), Some(InputOptions::Magenta));
}

#[test]
fn choices_name_colors_and_shapes() {
    assert_eq!(InputOptions::Cyan.get_color(), Some(InputColor::Cyan));
    assert_eq!(InputOptions::Cyan.get_shape(), None);
    assert_eq!(InputOptions::Club.get_shape(), Some(InputShape::Club));
    assert_eq!(InputOptions::Club.get_color(), None);
    assert_eq!(InputOptions::Quit.get_color(), None);
    assert_eq!(InputOptions::Quit.get_shape(), None);
}

#[test]
fn modes_accept_their_choices() {
    assert!(Mode::Color.accepts(InputOptions::Red));
    assert!(!Mode::Color.accepts(InputOptions::Heart));
    assert!(Mode::Shape.accepts(InputOptions::Heart));
    assert!(!Mode::Both.accepts(InputOptions::Red));
    assert!(Mode::Both.accepts(InputOptions::Quit));
}
