use wat::style_types::{
    expand_corners, expand_sides,
    is_inherited, set_if, BorderStyle, Corners, Display, FlexDirection, Overflow, Position, Sides,
    TextDecoration, WhiteSpace,
};

#[test]
fn display_categories() {
    assert!(Display::InlineBlock.is_inline_level());
    assert!(Display::InlineBlock.is_block_container());
    assert!(!Display::Block.is_inline_level());
    assert!(Display::Flex.is_flex_container());
    assert!(
        Display::TableRow.is_flex_container(),
        "rows lay out as flex"
    );
}

#[test]
fn white_space_behaviour() {
    assert!(WhiteSpace::Pre.preserves_newlines());
    assert!(!WhiteSpace::Pre.wraps());
    assert!(WhiteSpace::PreWrap.wraps());
    assert!(!WhiteSpace::Normal.preserves_spaces());
    assert!(WhiteSpace::PreLine.preserves_newlines());
    assert!(!WhiteSpace::PreLine.preserves_spaces());
}

#[test]
fn positions_and_overflow() {
    assert!(Position::Absolute.is_out_of_flow());
    assert!(!Position::Sticky.is_out_of_flow());
    assert!(Position::Sticky.is_positioned());
    assert!(!Position::Static.is_positioned());
    assert!(Overflow::Clip.clips());
    assert!(!Overflow::Visible.clips());
    assert!(Overflow::Auto.scrollable());
    assert!(!Overflow::Hidden.scrollable());
    assert!(Display::KeywordNone.is_none());
    assert!(!Display::Contents.is_none());
}

#[test]
fn borders_decorations_and_flex() {
    assert!(!BorderStyle::Hidden.is_visible());
    assert!(!BorderStyle::KeywordNone.is_visible());
    assert!(BorderStyle::Dotted.is_visible());
    assert!(!TextDecoration::default().any());
    assert!(TextDecoration { underline: false, overline: false, line_through: true }.any());
    assert!(FlexDirection::RowReverse.is_row());
    assert!(FlexDirection::ColumnReverse.is_reverse());
    assert!(!FlexDirection::Column.is_row());
}

#[test]
fn sides_and_corners_apply_to_every_edge() {
    let sides = Sides::all(3i32).map(|v| v * 2);
    assert_eq!(sides, Sides { top: 6, right: 6, bottom: 6, left: 6 });
    let mapped = Sides { top: 1, right: 2, bottom: 3, left: 4 }.map(|v: i32| v + 10);
    assert_eq!(mapped, Sides { top: 11, right: 12, bottom: 13, left: 14 });
    let corners = Corners { top_left: 1u8, top_right: 2, bottom_right: 3, bottom_left: 4 }
        .map(|v| v == 2);
    assert_eq!(
        corners,
        Corners { top_left: false, top_right: true, bottom_right: false, bottom_left: false }
    );
    assert_eq!(Corners::all('x').bottom_left, 'x');
}

#[test]
fn text_properties_inherit() {
    assert!(is_inherited("color"));
    assert!(is_inherited("font-family"));
    assert!(is_inherited("word-spacing"));
    assert!(!is_inherited("margin"));
    assert!(!is_inherited("Color"));
    assert!(!is_inherited("background-color"));
}

#[test]
fn set_if_only_writes_a_value() {
    let mut target = 5;
    set_if(&mut target, None);
    assert_eq!(target, 5);
    set_if(&mut target, Some(9));
    assert_eq!(target, 9);
}

#[test]
fn edge_shorthand_expands_one_to_four_values() {
    assert_eq!(expand_sides::<u8>(&vec![]), None);
    assert_eq!(expand_sides(&vec![1]), Some(Sides::all(1)));
    assert_eq!(
        expand_sides(&vec![1, 2]),
        Some(Sides { top: 1, right: 2, bottom: 1, left: 2 })
    );
    assert_eq!(
        expand_sides(&vec![1, 2, 3]),
        Some(Sides { top: 1, right: 2, bottom: 3, left: 2 })
    );
    assert_eq!(
        expand_sides(&vec![1, 2, 3, 4, 5]),
        Some(Sides { top: 1, right: 2, bottom: 3, left: 4 })
    );
}

#[test]
fn corner_shorthand_expands_one_to_four_values() {
    assert_eq!(expand_corners::<u8>(&vec![]), None);
    assert_eq!(expand_corners(&vec![7]), Some(Corners::all(7)));
    assert_eq!(
        expand_corners(&vec![1, 2]),
        Some(Corners { top_left: 1, top_right: 2, bottom_right: 1, bottom_left: 2 })
    );
    assert_eq!(
        expand_corners(&vec![1, 2, 3]),
        Some(Corners { top_left: 1, top_right: 2, bottom_right: 3, bottom_left: 2 })
    );
    assert_eq!(
        expand_corners(&vec![1, 2, 3, 4]),
        Some(Corners { top_left: 1, top_right: 2, bottom_right: 3, bottom_left: 4 })
    );
}
