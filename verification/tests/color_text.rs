use wat::canvas::Color;
use wat::color_text::{color_hex, parse_hex_color};

#[test]
fn hex_colours_of_every_length_are_read() {
    assert_eq!(parse_hex_color("#ff7a1a"), Some(Color::rgb(255, 122, 26)));
    assert_eq!(parse_hex_color("#F80"), Some(Color::rgb(0xff, 0x88, 0x00)));
    assert_eq!(parse_hex_color("#f808"), Some(Color::rgba(0xff, 0x88, 0x00, 0x88)));
    assert_eq!(parse_hex_color(" #10141c38 "), Some(Color::rgba(0x10, 0x14, 0x1c, 0x38)));
}

#[test]
fn text_that_is_not_hex_is_refused() {
    assert_eq!(parse_hex_color(""), None);
    assert_eq!(parse_hex_color("ff7a1a"), None);
    assert_eq!(parse_hex_color("#ff7a1"), None);
    assert_eq!(parse_hex_color("#gg0000"), None);
    assert_eq!(parse_hex_color("red"), None);
}

#[test]
fn colours_are_written_as_hex_and_read_back() {
    assert_eq!(color_hex(Color::rgb(0x0a, 0x84, 0xff)), "#0a84ff");
    assert_eq!(color_hex(Color::rgba(0xff, 0xff, 0xff, 0x59)), "#ffffff59");
    for color in [Color::rgb(1, 2, 3), Color::rgba(250, 0, 16, 0), Color::transparent()] {
        assert_eq!(parse_hex_color(&color_hex(color)), Some(color));
    }
}
