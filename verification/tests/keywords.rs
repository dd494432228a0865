use wat::keywords::{ValueSource, font_family_names, align_items_keyword, align_self_keyword, background_repeat_keyword, background_size_keyword, border_style_keyword, box_sizing_keyword, clear_keyword, css_wide_keyword, cursor_keyword, display_keywords, flex_direction_keyword, flex_flow_keywords, flex_wrap_keyword, float_keyword, font_style_keyword, font_weight_keyword, justify_keyword, list_style_keyword, overflow_keyword, position_keyword, text_align_keyword, text_decoration_lines, text_transform_keyword, vertical_align_keyword, visibility_keyword, white_space_keyword};
use wat::style_types::{AlignItems, AlignSelf, BackgroundRepeat, BackgroundSize, BorderStyle, BoxSizing, Clear, Cursor, Display, FlexDirection, FlexWrap, Float, FontStyle, JustifyContent, ListStyleType, Overflow, Position, TextAlign, TextTransform, VerticalAlign, Visibility, WhiteSpace};
fn words(ws: &[&str]) -> Vec<String> {
    ws.iter().map(|w| w.to_string()).collect()
}

#[test]
fn overflow_keywords_ignore_ascii_case() {
    assert_eq!(overflow_keyword("HIDDEN"), Some(Overflow::Hidden));
    assert_eq!(overflow_keyword("clip"), Some(Overflow::Clip));
    assert_eq!(overflow_keyword("overlay"), None);
}

#[test]
fn display_accepts_the_two_value_syntax() {
    assert_eq!(display_keywords(&words(&["inline", "flex"])), Some(Display::InlineFlex));
    assert_eq!(display_keywords(&words(&["Block", "FLOW"])), Some(Display::Block));
    assert_eq!(display_keywords(&words(&["flow-root"])), Some(Display::Block));
    assert_eq!(display_keywords(&words(&["inline-grid"])), Some(Display::Grid));
    assert_eq!(display_keywords(&words(&["table-header-group"])), Some(Display::TableRowGroup));
    assert_eq!(display_keywords(&words(&["table-column"])), Some(Display::KeywordNone));
    assert_eq!(display_keywords(&words(&["contents"])), Some(Display::Contents));
    assert_eq!(display_keywords(&words(&["flex", "inline"])), None);
    assert_eq!(display_keywords(&words(&[])), None);
}

#[test]
fn justify_keywords_have_synonyms() {
    assert_eq!(justify_keyword("flex-start"), Some(JustifyContent::Start));
    assert_eq!(justify_keyword("left"), Some(JustifyContent::Start));
    assert_eq!(justify_keyword("right"), Some(JustifyContent::End));
    assert_eq!(justify_keyword("space-evenly"), Some(JustifyContent::SpaceEvenly));
    assert_eq!(justify_keyword("stretch"), None);
}

#[test]
fn border_and_list_styles() {
    assert_eq!(border_style_keyword("Dashed"), Some(BorderStyle::Dashed));
    assert_eq!(border_style_keyword("none"), Some(BorderStyle::KeywordNone));
    assert_eq!(border_style_keyword("wavy"), None);
    assert_eq!(list_style_keyword("lower-latin"), Some(ListStyleType::LowerAlpha));
    assert_eq!(list_style_keyword("UPPER-ROMAN"), Some(ListStyleType::UpperRoman));
    assert_eq!(list_style_keyword("georgian"), None);
}

#[test]
fn font_weight_keywords_are_relative_where_they_say_so() {
    assert_eq!(font_weight_keyword("normal", 700), Some(400));
    assert_eq!(font_weight_keyword("BOLD", 100), Some(700));
    assert_eq!(font_weight_keyword("lighter", 700), Some(400));
    assert_eq!(font_weight_keyword("lighter", 400), Some(100));
    assert_eq!(font_weight_keyword("bolder", 400), Some(700));
    assert_eq!(font_weight_keyword("bolder", 600), Some(900));
    assert_eq!(font_weight_keyword("heavy", 400), None);
}

#[test]
fn box_keywords() {
    assert_eq!(position_keyword("Sticky"), Some(Position::Sticky));
    assert_eq!(position_keyword("center"), None);
    assert_eq!(float_keyword("none"), Some(Float::KeywordNone));
    assert_eq!(clear_keyword("both"), Some(Clear::Both));
    assert_eq!(box_sizing_keyword("border-box"), Some(BoxSizing::BorderBox));
    assert_eq!(visibility_keyword("collapse"), Some(Visibility::Hidden));
    assert_eq!(visibility_keyword("shown"), None);
}

#[test]
fn text_keywords() {
    assert_eq!(font_style_keyword("oblique"), Some(FontStyle::Oblique));
    assert_eq!(text_align_keyword("END"), Some(TextAlign::End));
    assert_eq!(text_transform_keyword("none"), Some(TextTransform::KeywordNone));
    assert_eq!(white_space_keyword("pre-line"), Some(WhiteSpace::PreLine));
    assert_eq!(vertical_align_keyword("text-bottom"), Some(VerticalAlign::TextBottom));
    assert_eq!(vertical_align_keyword("10px"), None);
}

#[test]
fn keywords_with_a_fallback_value() {
    assert_eq!(background_size_keyword(Some("cover")), BackgroundSize::Cover);
    assert_eq!(background_size_keyword(Some("50%")), BackgroundSize::Auto);
    assert_eq!(background_size_keyword(None), BackgroundSize::Auto);
    assert_eq!(background_repeat_keyword(Some("REPEAT-X")), BackgroundRepeat::RepeatX);
    assert_eq!(background_repeat_keyword(Some("space")), BackgroundRepeat::Repeat);
    assert_eq!(cursor_keyword(Some("not-allowed")), Cursor::NotAllowed);
    assert_eq!(cursor_keyword(Some("crosshair")), Cursor::Auto);
    assert_eq!(cursor_keyword(None), Cursor::Auto);
}

#[test]
fn flex_keywords() {
    assert_eq!(flex_direction_keyword("column-reverse"), Some(FlexDirection::ColumnReverse));
    assert_eq!(flex_wrap_keyword("nowrap"), Some(FlexWrap::NoWrap));
    assert_eq!(align_items_keyword("normal"), Some(AlignItems::Stretch));
    assert_eq!(align_items_keyword("flex-end"), Some(AlignItems::End));
    assert_eq!(align_self_keyword("auto"), Some(AlignSelf::Auto));
    assert_eq!(align_self_keyword("normal"), None);
    assert_eq!(
        flex_flow_keywords(&words(&["column", "wrap"]), FlexDirection::Row, FlexWrap::NoWrap),
        (FlexDirection::Column, FlexWrap::Wrap)
    );
    assert_eq!(
        flex_flow_keywords(&words(&["wrap-reverse", "bogus", "row-reverse", "column"]), FlexDirection::Row, FlexWrap::NoWrap),
        (FlexDirection::Column, FlexWrap::WrapReverse)
    );
    assert_eq!(
        flex_flow_keywords(&words(&[]), FlexDirection::Row, FlexWrap::Wrap),
        (FlexDirection::Row, FlexWrap::Wrap)
    );
}

#[test]
fn css_wide_keywords_pick_where_the_value_comes_from() {
    assert_eq!(css_wide_keyword("inherit", "margin"), Some(ValueSource::Parent));
    assert_eq!(css_wide_keyword("INITIAL", "color"), Some(ValueSource::Initial));
    assert_eq!(css_wide_keyword("unset", "color"), Some(ValueSource::Parent));
    assert_eq!(css_wide_keyword("unset", "margin"), Some(ValueSource::Initial));
    assert_eq!(css_wide_keyword("revert", "white-space"), Some(ValueSource::Parent));
    assert_eq!(css_wide_keyword("auto", "color"), None);
}

#[test]
fn text_decoration_lines_need_a_line_keyword() {
    let both = text_decoration_lines(&words(&["Underline", "red", "line-through"])).unwrap();
    assert!(both.underline && both.line_through && !both.overline);
    let none = text_decoration_lines(&words(&["none"])).unwrap();
    assert!(!none.any());
    assert_eq!(text_decoration_lines(&words(&["red"])), None);
}

#[test]
fn font_families_join_unquoted_words_and_drop_blanks() {
    let items = vec![
        words(&["Helvetica", "Neue"]),
        words(&["  Arial "]),
        words(&[]),
        words(&[" "]),
        words(&["sans-serif"]),
    ];
    assert_eq!(font_family_names(&items), words(&["Helvetica Neue", "Arial", "sans-serif"]));
}
