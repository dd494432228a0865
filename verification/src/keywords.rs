//! The keyword-valued properties: which keywords each accepts, and what
//! they mean. Keywords match without regard to ASCII case.
use vstd::prelude::*;

use crate::chars::{lower_seq, lowercase, str_equal, trim, trim_seq};
use crate::inline_style::{join_from, join_seq, views};
use crate::style_types::{
    inherited_property, is_inherited, AlignItems, AlignSelf, BackgroundRepeat, BackgroundSize,
    BorderStyle, BoxSizing, Clear, Cursor, Display, FlexDirection, FlexWrap, Float, FontStyle,
    JustifyContent, ListStyleType, Overflow, Position, TextAlign, TextDecoration, TextTransform,
    VerticalAlign, Visibility, WhiteSpace,
};

verus! {

/// The `overflow` value a lower-case keyword names.
pub open spec fn overflow_of(k: Seq<char>) -> Option<Overflow> {
    if k == "visible"@ {
        Some(Overflow::Visible)
    } else if k == "hidden"@ {
        Some(Overflow::Hidden)
    } else if k == "scroll"@ {
        Some(Overflow::Scroll)
    } else if k == "auto"@ {
        Some(Overflow::Auto)
    } else if k == "clip"@ {
        Some(Overflow::Clip)
    } else {
        None::<Overflow>
    }
}

/// The `overflow` a keyword names.
pub fn overflow_keyword(keyword: &str) -> (r: Option<Overflow>)
    ensures
        r == overflow_of(lower_seq(keyword@)),
{
    let lowered = lowercase(keyword);
    let k = lowered.as_str();
    if str_equal(k, "visible") {
        Some(Overflow::Visible)
    } else if str_equal(k, "hidden") {
        Some(Overflow::Hidden)
    } else if str_equal(k, "scroll") {
        Some(Overflow::Scroll)
    } else if str_equal(k, "auto") {
        Some(Overflow::Auto)
    } else if str_equal(k, "clip") {
        Some(Overflow::Clip)
    } else {
        None
    }
}

/// The `justify-content` value a lower-case keyword names.
pub open spec fn justify_of(k: Seq<char>) -> Option<JustifyContent> {
    if k == "flex-start"@ || k == "start"@ || k == "normal"@ || k == "left"@ {
        Some(JustifyContent::Start)
    } else if k == "flex-end"@ || k == "end"@ || k == "right"@ {
        Some(JustifyContent::End)
    } else if k == "center"@ {
        Some(JustifyContent::Center)
    } else if k == "space-between"@ {
        Some(JustifyContent::SpaceBetween)
    } else if k == "space-around"@ {
        Some(JustifyContent::SpaceAround)
    } else if k == "space-evenly"@ {
        Some(JustifyContent::SpaceEvenly)
    } else {
        None::<JustifyContent>
    }
}

/// The `justify-content` a keyword names.
pub fn justify_keyword(keyword: &str) -> (r: Option<JustifyContent>)
    ensures
        r == justify_of(lower_seq(keyword@)),
{
    let lowered = lowercase(keyword);
    let k = lowered.as_str();
    if str_equal(k, "flex-start") || str_equal(k, "start") || str_equal(k, "normal") || str_equal(k, "left") {
        Some(JustifyContent::Start)
    } else if str_equal(k, "flex-end") || str_equal(k, "end") || str_equal(k, "right") {
        Some(JustifyContent::End)
    } else if str_equal(k, "center") {
        Some(JustifyContent::Center)
    } else if str_equal(k, "space-between") {
        Some(JustifyContent::SpaceBetween)
    } else if str_equal(k, "space-around") {
        Some(JustifyContent::SpaceAround)
    } else if str_equal(k, "space-evenly") {
        Some(JustifyContent::SpaceEvenly)
    } else {
        None
    }
}

/// The border style a lower-case keyword names.
pub open spec fn border_style_of(k: Seq<char>) -> Option<BorderStyle> {
    if k == "none"@ {
        Some(BorderStyle::KeywordNone)
    } else if k == "hidden"@ {
        Some(BorderStyle::Hidden)
    } else if k == "solid"@ {
        Some(BorderStyle::Solid)
    } else if k == "dashed"@ {
        Some(BorderStyle::Dashed)
    } else if k == "dotted"@ {
        Some(BorderStyle::Dotted)
    } else if k == "double"@ {
        Some(BorderStyle::Double)
    } else if k == "groove"@ {
        Some(BorderStyle::Groove)
    } else if k == "ridge"@ {
        Some(BorderStyle::Ridge)
    } else if k == "inset"@ {
        Some(BorderStyle::Inset)
    } else if k == "outset"@ {
        Some(BorderStyle::Outset)
    } else {
        None::<BorderStyle>
    }
}

/// The border style a keyword names.
pub fn border_style_keyword(keyword: &str) -> (r: Option<BorderStyle>)
    ensures
        r == border_style_of(lower_seq(keyword@)),
{
    let lowered = lowercase(keyword);
    let k = lowered.as_str();
    if str_equal(k, "none") {
        Some(BorderStyle::KeywordNone)
    } else if str_equal(k, "hidden") {
        Some(BorderStyle::Hidden)
    } else if str_equal(k, "solid") {
        Some(BorderStyle::Solid)
    } else if str_equal(k, "dashed") {
        Some(BorderStyle::Dashed)
    } else if str_equal(k, "dotted") {
        Some(BorderStyle::Dotted)
    } else if str_equal(k, "double") {
        Some(BorderStyle::Double)
    } else if str_equal(k, "groove") {
        Some(BorderStyle::Groove)
    } else if str_equal(k, "ridge") {
        Some(BorderStyle::Ridge)
    } else if str_equal(k, "inset") {
        Some(BorderStyle::Inset)
    } else if str_equal(k, "outset") {
        Some(BorderStyle::Outset)
    } else {
        None
    }
}

/// The `list-style-type` value a lower-case keyword names.
pub open spec fn list_style_of(k: Seq<char>) -> Option<ListStyleType> {
    if k == "none"@ {
        Some(ListStyleType::KeywordNone)
    } else if k == "disc"@ {
        Some(ListStyleType::Disc)
    } else if k == "circle"@ {
        Some(ListStyleType::Circle)
    } else if k == "square"@ {
        Some(ListStyleType::Square)
    } else if k == "decimal"@ {
        Some(ListStyleType::Decimal)
    } else if k == "lower-alpha"@ || k == "lower-latin"@ {
        Some(ListStyleType::LowerAlpha)
    } else if k == "upper-alpha"@ || k == "upper-latin"@ {
        Some(ListStyleType::UpperAlpha)
    } else if k == "lower-roman"@ {
        Some(ListStyleType::LowerRoman)
    } else if k == "upper-roman"@ {
        Some(ListStyleType::UpperRoman)
    } else {
        None::<ListStyleType>
    }
}

/// The `list-style-type` a keyword names.
pub fn list_style_keyword(keyword: &str) -> (r: Option<ListStyleType>)
    ensures
        r == list_style_of(lower_seq(keyword@)),
{
    let lowered = lowercase(keyword);
    let k = lowered.as_str();
    if str_equal(k, "none") {
        Some(ListStyleType::KeywordNone)
    } else if str_equal(k, "disc") {
        Some(ListStyleType::Disc)
    } else if str_equal(k, "circle") {
        Some(ListStyleType::Circle)
    } else if str_equal(k, "square") {
        Some(ListStyleType::Square)
    } else if str_equal(k, "decimal") {
        Some(ListStyleType::Decimal)
    } else if str_equal(k, "lower-alpha") || str_equal(k, "lower-latin") {
        Some(ListStyleType::LowerAlpha)
    } else if str_equal(k, "upper-alpha") || str_equal(k, "upper-latin") {
        Some(ListStyleType::UpperAlpha)
    } else if str_equal(k, "lower-roman") {
        Some(ListStyleType::LowerRoman)
    } else if str_equal(k, "upper-roman") {
        Some(ListStyleType::UpperRoman)
    } else {
        None
    }
}

/// The `display` value lower-case keywords name, joined by single spaces; the two-value syntax collapses to one value, and the table-column boxes generate none.
pub open spec fn display_of(k: Seq<char>) -> Option<Display> {
    if k == "none"@ {
        Some(Display::KeywordNone)
    } else if k == "block"@ || k == "flow-root"@ || k == "block flow"@ {
        Some(Display::Block)
    } else if k == "inline"@ || k == "inline flow"@ {
        Some(Display::Inline)
    } else if k == "inline-block"@ || k == "inline flow-root"@ {
        Some(Display::InlineBlock)
    } else if k == "flex"@ || k == "block flex"@ {
        Some(Display::Flex)
    } else if k == "inline-flex"@ || k == "inline flex"@ {
        Some(Display::InlineFlex)
    } else if k == "grid"@ || k == "block grid"@ || k == "inline-grid"@ || k == "inline grid"@ {
        Some(Display::Grid)
    } else if k == "list-item"@ {
        Some(Display::ListItem)
    } else if k == "table"@ || k == "inline-table"@ {
        Some(Display::Table)
    } else if k == "table-row-group"@ || k == "table-header-group"@ || k == "table-footer-group"@ {
        Some(Display::TableRowGroup)
    } else if k == "table-row"@ {
        Some(Display::TableRow)
    } else if k == "table-cell"@ {
        Some(Display::TableCell)
    } else if k == "table-caption"@ {
        Some(Display::TableCaption)
    } else if k == "contents"@ {
        Some(Display::Contents)
    } else if k == "table-column"@ || k == "table-column-group"@ {
        Some(Display::KeywordNone)
    } else {
        None::<Display>
    }
}

/// The keywords, each in lower case.
pub open spec fn lower_all(keywords: Seq<Seq<char>>) -> Seq<Seq<char>> {
    keywords.map_values(|k: Seq<char>| lower_seq(k))
}

/// The `display` value the keywords of a `display` declaration name.
pub fn display_keywords(keywords: &Vec<String>) -> (r: Option<Display>)
    ensures
        r == display_of(join_seq(lower_all(views(keywords@)), seq![' '])),
{
    let mut lowered: Vec<String> = Vec::new();
    let mut i: usize = 0;
    while i < keywords.len()
        invariant
            i <= keywords@.len(),
            views(lowered@) == lower_all(views(keywords@)).subrange(0, i as int),
        decreases keywords@.len() - i,
    {
        let ghost before = lowered@;
        let word = lowercase(keywords[i].as_str());
        lowered.push(word);
        assert(views(lowered@) =~= views(before).push(word@));
        assert(views(keywords@)[i as int] == keywords@[i as int]@);
        assert(lower_all(views(keywords@)).subrange(0, i + 1) =~= lower_all(views(keywords@)).subrange(
            0,
            i as int,
        ).push(lower_seq(keywords@[i as int]@)));
        i = i + 1;
    }
    assert(views(lowered@) =~= lower_all(views(keywords@)));
    let joined = join_from(&lowered, 0, ' ');
    assert(views(lowered@).skip(0) =~= views(lowered@));
    let k = joined.as_str();
    if str_equal(k, "none") {
        Some(Display::KeywordNone)
    } else if str_equal(k, "block") || str_equal(k, "flow-root") || str_equal(k, "block flow") {
        Some(Display::Block)
    } else if str_equal(k, "inline") || str_equal(k, "inline flow") {
        Some(Display::Inline)
    } else if str_equal(k, "inline-block") || str_equal(k, "inline flow-root") {
        Some(Display::InlineBlock)
    } else if str_equal(k, "flex") || str_equal(k, "block flex") {
        Some(Display::Flex)
    } else if str_equal(k, "inline-flex") || str_equal(k, "inline flex") {
        Some(Display::InlineFlex)
    } else if str_equal(k, "grid") || str_equal(k, "block grid") || str_equal(k, "inline-grid") || str_equal(k, "inline grid") {
        Some(Display::Grid)
    } else if str_equal(k, "list-item") {
        Some(Display::ListItem)
    } else if str_equal(k, "table") || str_equal(k, "inline-table") {
        Some(Display::Table)
    } else if str_equal(k, "table-row-group") || str_equal(k, "table-header-group") || str_equal(k, "table-footer-group") {
        Some(Display::TableRowGroup)
    } else if str_equal(k, "table-row") {
        Some(Display::TableRow)
    } else if str_equal(k, "table-cell") {
        Some(Display::TableCell)
    } else if str_equal(k, "table-caption") {
        Some(Display::TableCaption)
    } else if str_equal(k, "contents") {
        Some(Display::Contents)
    } else if str_equal(k, "table-column") || str_equal(k, "table-column-group") {
        Some(Display::KeywordNone)
    } else {
        None
    }
}

/// The font weight a keyword names, relative to the inherited weight for
/// `lighter` and `bolder`.
pub open spec fn font_weight_of(k: Seq<char>, parent_weight: u16) -> Option<u16> {
    if k == "normal"@ {
        Some(400)
    } else if k == "bold"@ {
        Some(700)
    } else if k == "lighter"@ {
        Some(if parent_weight >= 600 { 400 } else { 100 })
    } else if k == "bolder"@ {
        Some(if parent_weight <= 500 { 700 } else { 900 })
    } else {
        None::<u16>
    }
}

/// The font weight a `font-weight` keyword names.
pub fn font_weight_keyword(keyword: &str, parent_weight: u16) -> (r: Option<u16>)
    ensures
        r == font_weight_of(lower_seq(keyword@), parent_weight),
{
    let lowered = lowercase(keyword);
    let k = lowered.as_str();
    if str_equal(k, "normal") {
        Some(400)
    } else if str_equal(k, "bold") {
        Some(700)
    } else if str_equal(k, "lighter") {
        Some(if parent_weight >= 600 { 400 } else { 100 })
    } else if str_equal(k, "bolder") {
        Some(if parent_weight <= 500 { 700 } else { 900 })
    } else {
        None
    }
}

/// The `position` value a lower-case keyword names.
pub open spec fn position_of(k: Seq<char>) -> Option<Position> {
    if k == "static"@ {
        Some(Position::Static)
    } else if k == "relative"@ {
        Some(Position::Relative)
    } else if k == "absolute"@ {
        Some(Position::Absolute)
    } else if k == "fixed"@ {
        Some(Position::Fixed)
    } else if k == "sticky"@ {
        Some(Position::Sticky)
    } else {
        None::<Position>
    }
}

/// The `position` value a keyword names; a keyword it does not know leaves the
/// property as it was.
pub fn position_keyword(keyword: &str) -> (r: Option<Position>)
    ensures
        r == position_of(lower_seq(keyword@)),
{
    let lowered = lowercase(keyword);
    let k = lowered.as_str();
    if str_equal(k, "static") {
        Some(Position::Static)
    } else if str_equal(k, "relative") {
        Some(Position::Relative)
    } else if str_equal(k, "absolute") {
        Some(Position::Absolute)
    } else if str_equal(k, "fixed") {
        Some(Position::Fixed)
    } else if str_equal(k, "sticky") {
        Some(Position::Sticky)
    } else {
        None
    }
}

/// The `float` value a lower-case keyword names.
pub open spec fn float_of(k: Seq<char>) -> Option<Float> {
    if k == "left"@ {
        Some(Float::Left)
    } else if k == "right"@ {
        Some(Float::Right)
    } else if k == "none"@ {
        Some(Float::KeywordNone)
    } else {
        None::<Float>
    }
}

/// The `float` value a keyword names; a keyword it does not know leaves the
/// property as it was.
pub fn float_keyword(keyword: &str) -> (r: Option<Float>)
    ensures
        r == float_of(lower_seq(keyword@)),
{
    let lowered = lowercase(keyword);
    let k = lowered.as_str();
    if str_equal(k, "left") {
        Some(Float::Left)
    } else if str_equal(k, "right") {
        Some(Float::Right)
    } else if str_equal(k, "none") {
        Some(Float::KeywordNone)
    } else {
        None
    }
}

/// The `clear` value a lower-case keyword names.
pub open spec fn clear_of(k: Seq<char>) -> Option<Clear> {
    if k == "left"@ {
        Some(Clear::Left)
    } else if k == "right"@ {
        Some(Clear::Right)
    } else if k == "both"@ {
        Some(Clear::Both)
    } else if k == "none"@ {
        Some(Clear::KeywordNone)
    } else {
        None::<Clear>
    }
}

/// The `clear` value a keyword names; a keyword it does not know leaves the
/// property as it was.
pub fn clear_keyword(keyword: &str) -> (r: Option<Clear>)
    ensures
        r == clear_of(lower_seq(keyword@)),
{
    let lowered = lowercase(keyword);
    let k = lowered.as_str();
    if str_equal(k, "left") {
        Some(Clear::Left)
    } else if str_equal(k, "right") {
        Some(Clear::Right)
    } else if str_equal(k, "both") {
        Some(Clear::Both)
    } else if str_equal(k, "none") {
        Some(Clear::KeywordNone)
    } else {
        None
    }
}

/// The `box-sizing` value a lower-case keyword names.
pub open spec fn box_sizing_of(k: Seq<char>) -> Option<BoxSizing> {
    if k == "border-box"@ {
        Some(BoxSizing::BorderBox)
    } else if k == "content-box"@ {
        Some(BoxSizing::ContentBox)
    } else {
        None::<BoxSizing>
    }
}

/// The `box-sizing` value a keyword names; a keyword it does not know leaves the
/// property as it was.
pub fn box_sizing_keyword(keyword: &str) -> (r: Option<BoxSizing>)
    ensures
        r == box_sizing_of(lower_seq(keyword@)),
{
    let lowered = lowercase(keyword);
    let k = lowered.as_str();
    if str_equal(k, "border-box") {
        Some(BoxSizing::BorderBox)
    } else if str_equal(k, "content-box") {
        Some(BoxSizing::ContentBox)
    } else {
        None
    }
}

/// The `visibility` value a lower-case keyword names.
pub open spec fn visibility_of(k: Seq<char>) -> Option<Visibility> {
    if k == "hidden"@ || k == "collapse"@ {
        Some(Visibility::Hidden)
    } else if k == "visible"@ {
        Some(Visibility::Visible)
    } else {
        None::<Visibility>
    }
}

/// The `visibility` value a keyword names; a keyword it does not know leaves the
/// property as it was.
pub fn visibility_keyword(keyword: &str) -> (r: Option<Visibility>)
    ensures
        r == visibility_of(lower_seq(keyword@)),
{
    let lowered = lowercase(keyword);
    let k = lowered.as_str();
    if str_equal(k, "hidden") || str_equal(k, "collapse") {
        Some(Visibility::Hidden)
    } else if str_equal(k, "visible") {
        Some(Visibility::Visible)
    } else {
        None
    }
}

/// The `font-style` value a lower-case keyword names.
pub open spec fn font_style_of(k: Seq<char>) -> Option<FontStyle> {
    if k == "italic"@ {
        Some(FontStyle::Italic)
    } else if k == "oblique"@ {
        Some(FontStyle::Oblique)
    } else if k == "normal"@ {
        Some(FontStyle::Normal)
    } else {
        None::<FontStyle>
    }
}

/// The `font-style` value a keyword names; a keyword it does not know leaves the
/// property as it was.
pub fn font_style_keyword(keyword: &str) -> (r: Option<FontStyle>)
    ensures
        r == font_style_of(lower_seq(keyword@)),
{
    let lowered = lowercase(keyword);
    let k = lowered.as_str();
    if str_equal(k, "italic") {
        Some(FontStyle::Italic)
    } else if str_equal(k, "oblique") {
        Some(FontStyle::Oblique)
    } else if str_equal(k, "normal") {
        Some(FontStyle::Normal)
    } else {
        None
    }
}

/// The `text-align` value a lower-case keyword names.
pub open spec fn text_align_of(k: Seq<char>) -> Option<TextAlign> {
    if k == "left"@ {
        Some(TextAlign::Left)
    } else if k == "right"@ {
        Some(TextAlign::Right)
    } else if k == "center"@ {
        Some(TextAlign::Center)
    } else if k == "justify"@ {
        Some(TextAlign::Justify)
    } else if k == "start"@ {
        Some(TextAlign::Start)
    } else if k == "end"@ {
        Some(TextAlign::End)
    } else {
        None::<TextAlign>
    }
}

/// The `text-align` value a keyword names; a keyword it does not know leaves the
/// property as it was.
pub fn text_align_keyword(keyword: &str) -> (r: Option<TextAlign>)
    ensures
        r == text_align_of(lower_seq(keyword@)),
{
    let lowered = lowercase(keyword);
    let k = lowered.as_str();
    if str_equal(k, "left") {
        Some(TextAlign::Left)
    } else if str_equal(k, "right") {
        Some(TextAlign::Right)
    } else if str_equal(k, "center") {
        Some(TextAlign::Center)
    } else if str_equal(k, "justify") {
        Some(TextAlign::Justify)
    } else if str_equal(k, "start") {
        Some(TextAlign::Start)
    } else if str_equal(k, "end") {
        Some(TextAlign::End)
    } else {
        None
    }
}

/// The `text-transform` value a lower-case keyword names.
pub open spec fn text_transform_of(k: Seq<char>) -> Option<TextTransform> {
    if k == "uppercase"@ {
        Some(TextTransform::Uppercase)
    } else if k == "lowercase"@ {
        Some(TextTransform::Lowercase)
    } else if k == "capitalize"@ {
        Some(TextTransform::Capitalize)
    } else if k == "none"@ {
        Some(TextTransform::KeywordNone)
    } else {
        None::<TextTransform>
    }
}

/// The `text-transform` value a keyword names; a keyword it does not know leaves the
/// property as it was.
pub fn text_transform_keyword(keyword: &str) -> (r: Option<TextTransform>)
    ensures
        r == text_transform_of(lower_seq(keyword@)),
{
    let lowered = lowercase(keyword);
    let k = lowered.as_str();
    if str_equal(k, "uppercase") {
        Some(TextTransform::Uppercase)
    } else if str_equal(k, "lowercase") {
        Some(TextTransform::Lowercase)
    } else if str_equal(k, "capitalize") {
        Some(TextTransform::Capitalize)
    } else if str_equal(k, "none") {
        Some(TextTransform::KeywordNone)
    } else {
        None
    }
}

/// The `white-space` value a lower-case keyword names.
pub open spec fn white_space_of(k: Seq<char>) -> Option<WhiteSpace> {
    if k == "nowrap"@ {
        Some(WhiteSpace::Nowrap)
    } else if k == "pre"@ {
        Some(WhiteSpace::Pre)
    } else if k == "pre-wrap"@ {
        Some(WhiteSpace::PreWrap)
    } else if k == "pre-line"@ {
        Some(WhiteSpace::PreLine)
    } else if k == "normal"@ {
        Some(WhiteSpace::Normal)
    } else {
        None::<WhiteSpace>
    }
}

/// The `white-space` value a keyword names; a keyword it does not know leaves the
/// property as it was.
pub fn white_space_keyword(keyword: &str) -> (r: Option<WhiteSpace>)
    ensures
        r == white_space_of(lower_seq(keyword@)),
{
    let lowered = lowercase(keyword);
    let k = lowered.as_str();
    if str_equal(k, "nowrap") {
        Some(WhiteSpace::Nowrap)
    } else if str_equal(k, "pre") {
        Some(WhiteSpace::Pre)
    } else if str_equal(k, "pre-wrap") {
        Some(WhiteSpace::PreWrap)
    } else if str_equal(k, "pre-line") {
        Some(WhiteSpace::PreLine)
    } else if str_equal(k, "normal") {
        Some(WhiteSpace::Normal)
    } else {
        None
    }
}

/// The `vertical-align` value a lower-case keyword names.
pub open spec fn vertical_align_of(k: Seq<char>) -> Option<VerticalAlign> {
    if k == "top"@ {
        Some(VerticalAlign::Top)
    } else if k == "middle"@ {
        Some(VerticalAlign::Middle)
    } else if k == "bottom"@ {
        Some(VerticalAlign::Bottom)
    } else if k == "text-top"@ {
        Some(VerticalAlign::TextTop)
    } else if k == "text-bottom"@ {
        Some(VerticalAlign::TextBottom)
    } else if k == "sub"@ {
        Some(VerticalAlign::Sub)
    } else if k == "super"@ {
        Some(VerticalAlign::Super)
    } else if k == "baseline"@ {
        Some(VerticalAlign::Baseline)
    } else {
        None::<VerticalAlign>
    }
}

/// The `vertical-align` value a keyword names; a keyword it does not know leaves the
/// property as it was.
pub fn vertical_align_keyword(keyword: &str) -> (r: Option<VerticalAlign>)
    ensures
        r == vertical_align_of(lower_seq(keyword@)),
{
    let lowered = lowercase(keyword);
    let k = lowered.as_str();
    if str_equal(k, "top") {
        Some(VerticalAlign::Top)
    } else if str_equal(k, "middle") {
        Some(VerticalAlign::Middle)
    } else if str_equal(k, "bottom") {
        Some(VerticalAlign::Bottom)
    } else if str_equal(k, "text-top") {
        Some(VerticalAlign::TextTop)
    } else if str_equal(k, "text-bottom") {
        Some(VerticalAlign::TextBottom)
    } else if str_equal(k, "sub") {
        Some(VerticalAlign::Sub)
    } else if str_equal(k, "super") {
        Some(VerticalAlign::Super)
    } else if str_equal(k, "baseline") {
        Some(VerticalAlign::Baseline)
    } else {
        None
    }
}

/// The `flex-direction` value a lower-case keyword names.
pub open spec fn flex_direction_of(k: Seq<char>) -> Option<FlexDirection> {
    if k == "row"@ {
        Some(FlexDirection::Row)
    } else if k == "row-reverse"@ {
        Some(FlexDirection::RowReverse)
    } else if k == "column"@ {
        Some(FlexDirection::Column)
    } else if k == "column-reverse"@ {
        Some(FlexDirection::ColumnReverse)
    } else {
        None::<FlexDirection>
    }
}

/// The `flex-direction` value a keyword names; a keyword it does not know leaves the
/// property as it was.
pub fn flex_direction_keyword(keyword: &str) -> (r: Option<FlexDirection>)
    ensures
        r == flex_direction_of(lower_seq(keyword@)),
{
    let lowered = lowercase(keyword);
    let k = lowered.as_str();
    if str_equal(k, "row") {
        Some(FlexDirection::Row)
    } else if str_equal(k, "row-reverse") {
        Some(FlexDirection::RowReverse)
    } else if str_equal(k, "column") {
        Some(FlexDirection::Column)
    } else if str_equal(k, "column-reverse") {
        Some(FlexDirection::ColumnReverse)
    } else {
        None
    }
}

/// The `flex-wrap` value a lower-case keyword names.
pub open spec fn flex_wrap_of(k: Seq<char>) -> Option<FlexWrap> {
    if k == "wrap"@ {
        Some(FlexWrap::Wrap)
    } else if k == "wrap-reverse"@ {
        Some(FlexWrap::WrapReverse)
    } else if k == "nowrap"@ {
        Some(FlexWrap::NoWrap)
    } else {
        None::<FlexWrap>
    }
}

/// The `flex-wrap` value a keyword names; a keyword it does not know leaves the
/// property as it was.
pub fn flex_wrap_keyword(keyword: &str) -> (r: Option<FlexWrap>)
    ensures
        r == flex_wrap_of(lower_seq(keyword@)),
{
    let lowered = lowercase(keyword);
    let k = lowered.as_str();
    if str_equal(k, "wrap") {
        Some(FlexWrap::Wrap)
    } else if str_equal(k, "wrap-reverse") {
        Some(FlexWrap::WrapReverse)
    } else if str_equal(k, "nowrap") {
        Some(FlexWrap::NoWrap)
    } else {
        None
    }
}

/// The `align-items` value a lower-case keyword names.
pub open spec fn align_items_of(k: Seq<char>) -> Option<AlignItems> {
    if k == "flex-start"@ || k == "start"@ {
        Some(AlignItems::Start)
    } else if k == "flex-end"@ || k == "end"@ {
        Some(AlignItems::End)
    } else if k == "center"@ {
        Some(AlignItems::Center)
    } else if k == "baseline"@ {
        Some(AlignItems::Baseline)
    } else if k == "stretch"@ || k == "normal"@ {
        Some(AlignItems::Stretch)
    } else {
        None::<AlignItems>
    }
}

/// The `align-items` value a keyword names; a keyword it does not know leaves the
/// property as it was.
pub fn align_items_keyword(keyword: &str) -> (r: Option<AlignItems>)
    ensures
        r == align_items_of(lower_seq(keyword@)),
{
    let lowered = lowercase(keyword);
    let k = lowered.as_str();
    if str_equal(k, "flex-start") || str_equal(k, "start") {
        Some(AlignItems::Start)
    } else if str_equal(k, "flex-end") || str_equal(k, "end") {
        Some(AlignItems::End)
    } else if str_equal(k, "center") {
        Some(AlignItems::Center)
    } else if str_equal(k, "baseline") {
        Some(AlignItems::Baseline)
    } else if str_equal(k, "stretch") || str_equal(k, "normal") {
        Some(AlignItems::Stretch)
    } else {
        None
    }
}

/// The `align-self` value a lower-case keyword names.
pub open spec fn align_self_of(k: Seq<char>) -> Option<AlignSelf> {
    if k == "auto"@ {
        Some(AlignSelf::Auto)
    } else if k == "flex-start"@ || k == "start"@ {
        Some(AlignSelf::Start)
    } else if k == "flex-end"@ || k == "end"@ {
        Some(AlignSelf::End)
    } else if k == "center"@ {
        Some(AlignSelf::Center)
    } else if k == "baseline"@ {
        Some(AlignSelf::Baseline)
    } else if k == "stretch"@ {
        Some(AlignSelf::Stretch)
    } else {
        None::<AlignSelf>
    }
}

/// The `align-self` value a keyword names; a keyword it does not know leaves the
/// property as it was.
pub fn align_self_keyword(keyword: &str) -> (r: Option<AlignSelf>)
    ensures
        r == align_self_of(lower_seq(keyword@)),
{
    let lowered = lowercase(keyword);
    let k = lowered.as_str();
    if str_equal(k, "auto") {
        Some(AlignSelf::Auto)
    } else if str_equal(k, "flex-start") || str_equal(k, "start") {
        Some(AlignSelf::Start)
    } else if str_equal(k, "flex-end") || str_equal(k, "end") {
        Some(AlignSelf::End)
    } else if str_equal(k, "center") {
        Some(AlignSelf::Center)
    } else if str_equal(k, "baseline") {
        Some(AlignSelf::Baseline)
    } else if str_equal(k, "stretch") {
        Some(AlignSelf::Stretch)
    } else {
        None
    }
}

/// The `background-size` value a lower-case keyword names; anything else means `auto`.
pub open spec fn background_size_of(k: Seq<char>) -> BackgroundSize {
    if k == "cover"@ {
        BackgroundSize::Cover
    } else if k == "contain"@ {
        BackgroundSize::Contain
    } else {
        BackgroundSize::Auto
    }
}

/// The `background-size` value of a declaration, given its keyword when its value is
/// one; any other value means `auto`.
pub fn background_size_keyword(keyword: Option<&str>) -> (r: BackgroundSize)
    ensures
        r == match keyword {
            Some(k) => background_size_of(lower_seq(k@)),
            None => BackgroundSize::Auto,
        },
{
    match keyword {
        None => BackgroundSize::Auto,
        Some(keyword) => {
            let lowered = lowercase(keyword);
            let k = lowered.as_str();
            if str_equal(k, "cover") {
                BackgroundSize::Cover
            } else if str_equal(k, "contain") {
                BackgroundSize::Contain
            } else {
                BackgroundSize::Auto
            }
        },
    }
}

/// The `background-repeat` value a lower-case keyword names; anything else means `repeat`.
pub open spec fn background_repeat_of(k: Seq<char>) -> BackgroundRepeat {
    if k == "no-repeat"@ {
        BackgroundRepeat::NoRepeat
    } else if k == "repeat-x"@ {
        BackgroundRepeat::RepeatX
    } else if k == "repeat-y"@ {
        BackgroundRepeat::RepeatY
    } else {
        BackgroundRepeat::Repeat
    }
}

/// The `background-repeat` value of a declaration, given its keyword when its value is
/// one; any other value means `repeat`.
pub fn background_repeat_keyword(keyword: Option<&str>) -> (r: BackgroundRepeat)
    ensures
        r == match keyword {
            Some(k) => background_repeat_of(lower_seq(k@)),
            None => BackgroundRepeat::Repeat,
        },
{
    match keyword {
        None => BackgroundRepeat::Repeat,
        Some(keyword) => {
            let lowered = lowercase(keyword);
            let k = lowered.as_str();
            if str_equal(k, "no-repeat") {
                BackgroundRepeat::NoRepeat
            } else if str_equal(k, "repeat-x") {
                BackgroundRepeat::RepeatX
            } else if str_equal(k, "repeat-y") {
                BackgroundRepeat::RepeatY
            } else {
                BackgroundRepeat::Repeat
            }
        },
    }
}

/// The `cursor` value a lower-case keyword names; anything else means `auto`.
pub open spec fn cursor_of(k: Seq<char>) -> Cursor {
    if k == "pointer"@ {
        Cursor::Pointer
    } else if k == "text"@ {
        Cursor::Text
    } else if k == "move"@ {
        Cursor::Move
    } else if k == "not-allowed"@ {
        Cursor::NotAllowed
    } else if k == "grab"@ {
        Cursor::Grab
    } else if k == "default"@ {
        Cursor::Default
    } else {
        Cursor::Auto
    }
}

/// The `cursor` value of a declaration, given its keyword when its value is
/// one; any other value means `auto`.
pub fn cursor_keyword(keyword: Option<&str>) -> (r: Cursor)
    ensures
        r == match keyword {
            Some(k) => cursor_of(lower_seq(k@)),
            None => Cursor::Auto,
        },
{
    match keyword {
        None => Cursor::Auto,
        Some(keyword) => {
            let lowered = lowercase(keyword);
            let k = lowered.as_str();
            if str_equal(k, "pointer") {
                Cursor::Pointer
            } else if str_equal(k, "text") {
                Cursor::Text
            } else if str_equal(k, "move") {
                Cursor::Move
            } else if str_equal(k, "not-allowed") {
                Cursor::NotAllowed
            } else if str_equal(k, "grab") {
                Cursor::Grab
            } else if str_equal(k, "default") {
                Cursor::Default
            } else {
                Cursor::Auto
            }
        },
    }
}


/// Where a CSS-wide keyword takes a property's value from.
#[derive(Clone, Copy, Debug, PartialEq, Eq, Structural)]
pub enum ValueSource {
    /// The parent's computed value.
    Parent,
    /// The property's initial value.
    Initial,
}

/// What a CSS-wide keyword does to `property`: `inherit` takes the parent's
/// value, `initial` the initial one, and `unset` (and `revert`, treated the
/// same) the parent's for an inherited property, else the initial one. Any
/// other keyword is not CSS-wide.
pub open spec fn css_wide_source(keyword: Seq<char>, property: Seq<char>) -> Option<ValueSource> {
    if keyword == "inherit"@ {
        Some(ValueSource::Parent)
    } else if keyword == "initial"@ {
        Some(ValueSource::Initial)
    } else if keyword == "unset"@ || keyword == "revert"@ {
        if inherited_property(property) {
            Some(ValueSource::Parent)
        } else {
            Some(ValueSource::Initial)
        }
    } else {
        None::<ValueSource>
    }
}

/// What a declaration of `property` whose value is `keyword` copies from,
/// when the keyword is CSS-wide.
pub fn css_wide_keyword(keyword: &str, property: &str) -> (r: Option<ValueSource>)
    ensures
        r == css_wide_source(lower_seq(keyword@), property@),
{
    let lowered = lowercase(keyword);
    let k = lowered.as_str();
    if str_equal(k, "inherit") {
        Some(ValueSource::Parent)
    } else if str_equal(k, "initial") {
        Some(ValueSource::Initial)
    } else if str_equal(k, "unset") || str_equal(k, "revert") {
        if is_inherited(property) {
            Some(ValueSource::Parent)
        } else {
            Some(ValueSource::Initial)
        }
    } else {
        None
    }
}

/// The text decoration lines the keywords of a `text-decoration` value set,
/// when one of them is a line keyword (`underline`, `overline`,
/// `line-through` or `none`); other keywords are ignored.
pub open spec fn decoration_lines(keywords: Seq<Seq<char>>) -> Option<TextDecoration>
    decreases keywords.len(),
{
    if keywords.len() == 0 {
        None
    } else {
        let prev = decoration_lines(keywords.drop_last());
        let base = match prev {
            Some(d) => d,
            None => TextDecoration { underline: false, overline: false, line_through: false },
        };
        let k = keywords.last();
        if k == "underline"@ {
            Some(TextDecoration { underline: true, ..base })
        } else if k == "overline"@ {
            Some(TextDecoration { overline: true, ..base })
        } else if k == "line-through"@ {
            Some(TextDecoration { line_through: true, ..base })
        } else if k == "none"@ {
            Some(base)
        } else {
            prev
        }
    }
}

/// The decoration lines a `text-decoration` declaration sets, from the
/// keywords among its values, or `None` when it names no line and leaves
/// them as they were.
pub fn text_decoration_lines(keywords: &Vec<String>) -> (r: Option<TextDecoration>)
    ensures
        r == decoration_lines(lower_all(views(keywords@))),
{
    let ghost ks = lower_all(views(keywords@));
    let mut decoration = TextDecoration { underline: false, overline: false, line_through: false };
    let mut saw_line = false;
    let mut i: usize = 0;
    while i < keywords.len()
        invariant
            i <= keywords@.len(),
            ks == lower_all(views(keywords@)),
            decoration_lines(ks.subrange(0, i as int)) == if saw_line {
                Some(decoration)
            } else {
                None::<TextDecoration>
            },
            !saw_line ==> !decoration.underline && !decoration.overline && !decoration.line_through,
        decreases keywords@.len() - i,
    {
        proof {
            let done = ks.subrange(0, i + 1);
            assert(done.drop_last() =~= ks.subrange(0, i as int));
            assert(done.last() == lower_seq(keywords@[i as int]@));
        }
        let lowered = lowercase(keywords[i].as_str());
        let k = lowered.as_str();
        if str_equal(k, "underline") {
            decoration.underline = true;
            saw_line = true;
        } else if str_equal(k, "overline") {
            decoration.overline = true;
            saw_line = true;
        } else if str_equal(k, "line-through") {
            decoration.line_through = true;
            saw_line = true;
        } else if str_equal(k, "none") {
            saw_line = true;
        }
        i = i + 1;
    }
    assert(ks.subrange(0, i as int) =~= ks);
    if saw_line {
        Some(decoration)
    } else {
        None
    }
}

/// The direction and wrapping after the keywords of a `flex-flow` value are
/// applied in order over `direction` and `wrap`.
pub open spec fn flex_flow_of(keywords: Seq<Seq<char>>, direction: FlexDirection, wrap: FlexWrap) -> (FlexDirection, FlexWrap)
    decreases keywords.len(),
{
    if keywords.len() == 0 {
        (direction, wrap)
    } else {
        let (d, w) = flex_flow_of(keywords.drop_last(), direction, wrap);
        let k = keywords.last();
        match flex_direction_of(k) {
            Some(nd) => (nd, w),
            None => match flex_wrap_of(k) {
                Some(nw) => (d, nw),
                None => (d, w),
            },
        }
    }
}

/// Applies the keywords of a `flex-flow` value.
pub fn flex_flow_keywords(keywords: &Vec<String>, direction: FlexDirection, wrap: FlexWrap) -> (r: (FlexDirection, FlexWrap))
    ensures
        r == flex_flow_of(lower_all(views(keywords@)), direction, wrap),
{
    let ghost ks = lower_all(views(keywords@));
    let mut d = direction;
    let mut w = wrap;
    let mut i: usize = 0;
    while i < keywords.len()
        invariant
            i <= keywords@.len(),
            ks == lower_all(views(keywords@)),
            flex_flow_of(ks.subrange(0, i as int), direction, wrap) == (d, w),
        decreases keywords@.len() - i,
    {
        proof {
            let done = ks.subrange(0, i + 1);
            assert(done.drop_last() =~= ks.subrange(0, i as int));
            assert(done.last() == lower_seq(keywords@[i as int]@));
        }
        match flex_direction_keyword(keywords[i].as_str()) {
            Some(nd) => {
                d = nd;
            },
            None => match flex_wrap_keyword(keywords[i].as_str()) {
                Some(nw) => {
                    w = nw;
                },
                None => {},
            },
        }
        i = i + 1;
    }
    assert(ks.subrange(0, i as int) =~= ks);
    (d, w)
}


/// The family names a `font-family` value lists, from the string parts of
/// each comma-separated item (an unquoted multi-word name arrives as several
/// parts): each item's parts joined by spaces and trimmed, empty names left
/// out.
pub open spec fn family_names(items: Seq<Seq<Seq<char>>>) -> Seq<Seq<char>>
    decreases items.len(),
{
    if items.len() == 0 {
        Seq::empty()
    } else {
        let prev = family_names(items.drop_last());
        let name = trim_seq(join_seq(items.last(), seq![' ']));
        if name.len() == 0 {
            prev
        } else {
            prev.push(name)
        }
    }
}

pub open spec fn part_views(items: Seq<Vec<String>>) -> Seq<Seq<Seq<char>>> {
    items.map_values(|parts: Vec<String>| views(parts@))
}

/// The family names of a `font-family` declaration, in order.
pub fn font_family_names(items: &Vec<Vec<String>>) -> (r: Vec<String>)
    ensures
        views(r@) == family_names(part_views(items@)),
{
    let ghost ps = part_views(items@);
    let mut out: Vec<String> = Vec::new();
    let mut i: usize = 0;
    while i < items.len()
        invariant
            i <= items@.len(),
            ps == part_views(items@),
            views(out@) == family_names(ps.subrange(0, i as int)),
        decreases items@.len() - i,
    {
        proof {
            let done = ps.subrange(0, i + 1);
            assert(done.drop_last() =~= ps.subrange(0, i as int));
            assert(done.last() == views(items@[i as int]@));
        }
        let joined = join_from(&items[i], 0, ' ');
        assert(views(items@[i as int]@).skip(0) =~= views(items@[i as int]@));
        let name = trim(joined.as_str());
        if name.unicode_len() != 0 {
            let ghost before = out@;
            out.push(name);
            assert(views(out@) =~= views(before).push(out@[out@.len() - 1]@));
        }
        i = i + 1;
    }
    assert(ps.subrange(0, i as int) =~= ps);
    out
}
/// A `display` declaration of one keyword, written in any ASCII case, gives
/// the box that keyword names: `none` none, `block` a block, `flex` a flex
/// container, and so on for every single display keyword.
pub proof fn lemma_single_display_keywords(k: Seq<char>)
    ensures
        lower_seq(k) == "none"@ ==> display_of(join_seq(lower_all(seq![k]), seq![' '])) == Some(
            Display::KeywordNone,
        ),
        lower_seq(k) == "block"@ ==> display_of(join_seq(lower_all(seq![k]), seq![' '])) == Some(
            Display::Block,
        ),
        lower_seq(k) == "flow-root"@ ==> display_of(join_seq(lower_all(seq![k]), seq![' '])) == Some(
            Display::Block,
        ),
        lower_seq(k) == "inline"@ ==> display_of(join_seq(lower_all(seq![k]), seq![' '])) == Some(
            Display::Inline,
        ),
        lower_seq(k) == "inline-block"@ ==> display_of(join_seq(lower_all(seq![k]), seq![' '])) == Some(
            Display::InlineBlock,
        ),
        lower_seq(k) == "flex"@ ==> display_of(join_seq(lower_all(seq![k]), seq![' '])) == Some(
            Display::Flex,
        ),
        lower_seq(k) == "inline-flex"@ ==> display_of(join_seq(lower_all(seq![k]), seq![' '])) == Some(
            Display::InlineFlex,
        ),
        lower_seq(k) == "grid"@ ==> display_of(join_seq(lower_all(seq![k]), seq![' '])) == Some(
            Display::Grid,
        ),
        lower_seq(k) == "inline-grid"@ ==> display_of(join_seq(lower_all(seq![k]), seq![' '])) == Some(
            Display::Grid,
        ),
        lower_seq(k) == "list-item"@ ==> display_of(join_seq(lower_all(seq![k]), seq![' '])) == Some(
            Display::ListItem,
        ),
        lower_seq(k) == "table"@ ==> display_of(join_seq(lower_all(seq![k]), seq![' '])) == Some(
            Display::Table,
        ),
        lower_seq(k) == "inline-table"@ ==> display_of(join_seq(lower_all(seq![k]), seq![' '])) == Some(
            Display::Table,
        ),
        lower_seq(k) == "table-row-group"@ ==> display_of(join_seq(lower_all(seq![k]), seq![' '])) == Some(
            Display::TableRowGroup,
        ),
        lower_seq(k) == "table-header-group"@ ==> display_of(join_seq(lower_all(seq![k]), seq![' '])) == Some(
            Display::TableRowGroup,
        ),
        lower_seq(k) == "table-footer-group"@ ==> display_of(join_seq(lower_all(seq![k]), seq![' '])) == Some(
            Display::TableRowGroup,
        ),
        lower_seq(k) == "table-row"@ ==> display_of(join_seq(lower_all(seq![k]), seq![' '])) == Some(
            Display::TableRow,
        ),
        lower_seq(k) == "table-cell"@ ==> display_of(join_seq(lower_all(seq![k]), seq![' '])) == Some(
            Display::TableCell,
        ),
        lower_seq(k) == "table-caption"@ ==> display_of(join_seq(lower_all(seq![k]), seq![' '])) == Some(
            Display::TableCaption,
        ),
        lower_seq(k) == "contents"@ ==> display_of(join_seq(lower_all(seq![k]), seq![' '])) == Some(
            Display::Contents,
        ),
        lower_seq(k) == "table-column"@ ==> display_of(join_seq(lower_all(seq![k]), seq![' '])) == Some(
            Display::KeywordNone,
        ),
        lower_seq(k) == "table-column-group"@ ==> display_of(join_seq(lower_all(seq![k]), seq![' '])) == Some(
            Display::KeywordNone,
        ),
{
    reveal_strlit("none");
    reveal_strlit("block");
    reveal_strlit("flow-root");
    reveal_strlit("block flow");
    reveal_strlit("inline");
    reveal_strlit("inline flow");
    reveal_strlit("inline-block");
    reveal_strlit("inline flow-root");
    reveal_strlit("flex");
    reveal_strlit("block flex");
    reveal_strlit("inline-flex");
    reveal_strlit("inline flex");
    reveal_strlit("grid");
    reveal_strlit("block grid");
    reveal_strlit("inline-grid");
    reveal_strlit("inline grid");
    reveal_strlit("list-item");
    reveal_strlit("table");
    reveal_strlit("inline-table");
    reveal_strlit("table-row-group");
    reveal_strlit("table-header-group");
    reveal_strlit("table-footer-group");
    reveal_strlit("table-row");
    reveal_strlit("table-cell");
    reveal_strlit("table-caption");
    reveal_strlit("contents");
    reveal_strlit("table-column");
    reveal_strlit("table-column-group");
    assert(lower_all(seq![k]) =~= seq![lower_seq(k)]);
    assert(join_seq(seq![lower_seq(k)], seq![' ']) == lower_seq(k));
    assert(display_of("none"@) == Some(Display::KeywordNone));
    assert("none"@.len() == 4);
    assert("block"@.len() == 5);
    assert("flow-root"@.len() == 9);
    assert("block flow"@.len() == 10);
    assert("inline"@.len() == 6);
    assert("inline flow"@.len() == 11);
    assert("inline-block"@.len() == 12);
    assert("inline flow-root"@.len() == 16);
    assert("flex"@.len() == 4);
    assert("block flex"@.len() == 10);
    assert("inline-flex"@.len() == 11);
    assert("inline flex"@.len() == 11);
    assert("grid"@.len() == 4);
    assert("block grid"@.len() == 10);
    assert("inline-grid"@.len() == 11);
    assert("inline grid"@.len() == 11);
    assert("list-item"@.len() == 9);
    assert("table"@.len() == 5);
    assert("inline-table"@.len() == 12);
    assert("table-row-group"@.len() == 15);
    assert("table-header-group"@.len() == 18);
    assert("table-footer-group"@.len() == 18);
    assert("table-row"@.len() == 9);
    assert("table-cell"@.len() == 10);
    assert("table-caption"@.len() == 13);
    assert("contents"@.len() == 8);
    assert("table-column"@.len() == 12);
    assert("table-column-group"@.len() == 18);
    assert("none"@[0] != "flex"@[0]);
    assert("none"@[0] != "grid"@[0]);
    assert("block"@[0] != "table"@[0]);
    assert("flow-root"@[0] != "list-item"@[0]);
    assert("flow-root"@[0] != "table-row"@[0]);
    assert("block flow"@[8] != "block flex"@[8]);
    assert("block flow"@[6] != "block grid"@[6]);
    assert("block flow"@[0] != "table-cell"@[0]);
    assert("inline flow"@[6] != "inline-flex"@[6]);
    assert("inline flow"@[9] != "inline flex"@[9]);
    assert("inline flow"@[6] != "inline-grid"@[6]);
    assert("inline flow"@[7] != "inline grid"@[7]);
    assert("inline-block"@[7] != "inline-table"@[7]);
    assert("inline-block"@[0] != "table-column"@[0]);
    assert("flex"@[0] != "grid"@[0]);
    assert("block flex"@[6] != "block grid"@[6]);
    assert("block flex"@[0] != "table-cell"@[0]);
    assert("inline-flex"@[6] != "inline flex"@[6]);
    assert("inline-flex"@[7] != "inline-grid"@[7]);
    assert("inline-flex"@[6] != "inline grid"@[6]);
    assert("inline flex"@[6] != "inline-grid"@[6]);
    assert("inline flex"@[7] != "inline grid"@[7]);
    assert("block grid"@[0] != "table-cell"@[0]);
    assert("inline-grid"@[6] != "inline grid"@[6]);
    assert("list-item"@[0] != "table-row"@[0]);
    assert("inline-table"@[0] != "table-column"@[0]);
    assert("table-header-group"@[6] != "table-footer-group"@[6]);
    assert("table-header-group"@[6] != "table-column-group"@[6]);
    assert("table-footer-group"@[6] != "table-column-group"@[6]);
    assert(display_of("block"@) == Some(Display::Block));
    assert(display_of("flow-root"@) == Some(Display::Block));
    assert(display_of("inline"@) == Some(Display::Inline));
    assert(display_of("inline-block"@) == Some(Display::InlineBlock));
    assert(display_of("flex"@) == Some(Display::Flex));
    assert(display_of("inline-flex"@) == Some(Display::InlineFlex));
    assert(display_of("grid"@) == Some(Display::Grid));
    assert(display_of("inline-grid"@) == Some(Display::Grid));
    assert(display_of("list-item"@) == Some(Display::ListItem));
    assert(display_of("table"@) == Some(Display::Table));
    assert(display_of("inline-table"@) == Some(Display::Table));
    assert(display_of("table-row-group"@) == Some(Display::TableRowGroup));
    assert(display_of("table-header-group"@) == Some(Display::TableRowGroup));
    assert(display_of("table-footer-group"@) == Some(Display::TableRowGroup));
    assert(display_of("table-row"@) == Some(Display::TableRow));
    assert(display_of("table-cell"@) == Some(Display::TableCell));
    assert(display_of("table-caption"@) == Some(Display::TableCaption));
    assert(display_of("contents"@) == Some(Display::Contents));
    assert(display_of("table-column"@) == Some(Display::KeywordNone));
    assert(display_of("table-column-group"@) == Some(Display::KeywordNone));
}

/// Every `overflow` keyword, in any ASCII case, names its own value.
pub proof fn lemma_overflow_keywords(k: Seq<char>)
    ensures
        lower_seq(k) == "visible"@ ==> overflow_of(lower_seq(k)) == Some(Overflow::Visible),
        lower_seq(k) == "hidden"@ ==> overflow_of(lower_seq(k)) == Some(Overflow::Hidden),
        lower_seq(k) == "scroll"@ ==> overflow_of(lower_seq(k)) == Some(Overflow::Scroll),
        lower_seq(k) == "auto"@ ==> overflow_of(lower_seq(k)) == Some(Overflow::Auto),
        lower_seq(k) == "clip"@ ==> overflow_of(lower_seq(k)) == Some(Overflow::Clip),
{
    reveal_strlit("visible");
    reveal_strlit("hidden");
    reveal_strlit("scroll");
    reveal_strlit("auto");
    reveal_strlit("clip");
    assert("visible"@.len() == 7);
    assert("hidden"@.len() == 6);
    assert("scroll"@.len() == 6);
    assert("auto"@.len() == 4);
    assert("clip"@.len() == 4);
    assert("hidden"@[0] != "scroll"@[0]);
    assert("auto"@[0] != "clip"@[0]);
}

/// Every `justify-content` keyword, in any ASCII case, names its own value.
pub proof fn lemma_justify_keywords(k: Seq<char>)
    ensures
        lower_seq(k) == "flex-start"@ ==> justify_of(lower_seq(k)) == Some(JustifyContent::Start),
        lower_seq(k) == "start"@ ==> justify_of(lower_seq(k)) == Some(JustifyContent::Start),
        lower_seq(k) == "normal"@ ==> justify_of(lower_seq(k)) == Some(JustifyContent::Start),
        lower_seq(k) == "left"@ ==> justify_of(lower_seq(k)) == Some(JustifyContent::Start),
        lower_seq(k) == "flex-end"@ ==> justify_of(lower_seq(k)) == Some(JustifyContent::End),
        lower_seq(k) == "end"@ ==> justify_of(lower_seq(k)) == Some(JustifyContent::End),
        lower_seq(k) == "right"@ ==> justify_of(lower_seq(k)) == Some(JustifyContent::End),
        lower_seq(k) == "center"@ ==> justify_of(lower_seq(k)) == Some(JustifyContent::Center),
        lower_seq(k) == "space-between"@ ==> justify_of(lower_seq(k)) == Some(JustifyContent::SpaceBetween),
        lower_seq(k) == "space-around"@ ==> justify_of(lower_seq(k)) == Some(JustifyContent::SpaceAround),
        lower_seq(k) == "space-evenly"@ ==> justify_of(lower_seq(k)) == Some(JustifyContent::SpaceEvenly),
{
    reveal_strlit("flex-start");
    reveal_strlit("start");
    reveal_strlit("normal");
    reveal_strlit("left");
    reveal_strlit("flex-end");
    reveal_strlit("end");
    reveal_strlit("right");
    reveal_strlit("center");
    reveal_strlit("space-between");
    reveal_strlit("space-around");
    reveal_strlit("space-evenly");
    assert("flex-start"@.len() == 10);
    assert("start"@.len() == 5);
    assert("normal"@.len() == 6);
    assert("left"@.len() == 4);
    assert("flex-end"@.len() == 8);
    assert("end"@.len() == 3);
    assert("right"@.len() == 5);
    assert("center"@.len() == 6);
    assert("space-between"@.len() == 13);
    assert("space-around"@.len() == 12);
    assert("space-evenly"@.len() == 12);
    assert("start"@[0] != "right"@[0]);
    assert("normal"@[0] != "center"@[0]);
    assert("space-around"@[6] != "space-evenly"@[6]);
}

/// Every `border-style` keyword, in any ASCII case, names its own value.
pub proof fn lemma_border_style_keywords(k: Seq<char>)
    ensures
        lower_seq(k) == "none"@ ==> border_style_of(lower_seq(k)) == Some(BorderStyle::KeywordNone),
        lower_seq(k) == "hidden"@ ==> border_style_of(lower_seq(k)) == Some(BorderStyle::Hidden),
        lower_seq(k) == "solid"@ ==> border_style_of(lower_seq(k)) == Some(BorderStyle::Solid),
        lower_seq(k) == "dashed"@ ==> border_style_of(lower_seq(k)) == Some(BorderStyle::Dashed),
        lower_seq(k) == "dotted"@ ==> border_style_of(lower_seq(k)) == Some(BorderStyle::Dotted),
        lower_seq(k) == "double"@ ==> border_style_of(lower_seq(k)) == Some(BorderStyle::Double),
        lower_seq(k) == "groove"@ ==> border_style_of(lower_seq(k)) == Some(BorderStyle::Groove),
        lower_seq(k) == "ridge"@ ==> border_style_of(lower_seq(k)) == Some(BorderStyle::Ridge),
        lower_seq(k) == "inset"@ ==> border_style_of(lower_seq(k)) == Some(BorderStyle::Inset),
        lower_seq(k) == "outset"@ ==> border_style_of(lower_seq(k)) == Some(BorderStyle::Outset),
{
    reveal_strlit("none");
    reveal_strlit("hidden");
    reveal_strlit("solid");
    reveal_strlit("dashed");
    reveal_strlit("dotted");
    reveal_strlit("double");
    reveal_strlit("groove");
    reveal_strlit("ridge");
    reveal_strlit("inset");
    reveal_strlit("outset");
    assert("none"@.len() == 4);
    assert("hidden"@.len() == 6);
    assert("solid"@.len() == 5);
    assert("dashed"@.len() == 6);
    assert("dotted"@.len() == 6);
    assert("double"@.len() == 6);
    assert("groove"@.len() == 6);
    assert("ridge"@.len() == 5);
    assert("inset"@.len() == 5);
    assert("outset"@.len() == 6);
    assert("hidden"@[0] != "dashed"@[0]);
    assert("hidden"@[0] != "dotted"@[0]);
    assert("hidden"@[0] != "double"@[0]);
    assert("hidden"@[0] != "groove"@[0]);
    assert("hidden"@[0] != "outset"@[0]);
    assert("solid"@[0] != "ridge"@[0]);
    assert("solid"@[0] != "inset"@[0]);
    assert("dashed"@[1] != "dotted"@[1]);
    assert("dashed"@[1] != "double"@[1]);
    assert("dashed"@[0] != "groove"@[0]);
    assert("dashed"@[0] != "outset"@[0]);
    assert("dotted"@[2] != "double"@[2]);
    assert("dotted"@[0] != "groove"@[0]);
    assert("dotted"@[0] != "outset"@[0]);
    assert("double"@[0] != "groove"@[0]);
    assert("double"@[0] != "outset"@[0]);
    assert("groove"@[0] != "outset"@[0]);
    assert("ridge"@[0] != "inset"@[0]);
}

/// Every `list-style-type` keyword, in any ASCII case, names its own value.
pub proof fn lemma_list_style_keywords(k: Seq<char>)
    ensures
        lower_seq(k) == "none"@ ==> list_style_of(lower_seq(k)) == Some(ListStyleType::KeywordNone),
        lower_seq(k) == "disc"@ ==> list_style_of(lower_seq(k)) == Some(ListStyleType::Disc),
        lower_seq(k) == "circle"@ ==> list_style_of(lower_seq(k)) == Some(ListStyleType::Circle),
        lower_seq(k) == "square"@ ==> list_style_of(lower_seq(k)) == Some(ListStyleType::Square),
        lower_seq(k) == "decimal"@ ==> list_style_of(lower_seq(k)) == Some(ListStyleType::Decimal),
        lower_seq(k) == "lower-alpha"@ ==> list_style_of(lower_seq(k)) == Some(ListStyleType::LowerAlpha),
        lower_seq(k) == "lower-latin"@ ==> list_style_of(lower_seq(k)) == Some(ListStyleType::LowerAlpha),
        lower_seq(k) == "upper-alpha"@ ==> list_style_of(lower_seq(k)) == Some(ListStyleType::UpperAlpha),
        lower_seq(k) == "upper-latin"@ ==> list_style_of(lower_seq(k)) == Some(ListStyleType::UpperAlpha),
        lower_seq(k) == "lower-roman"@ ==> list_style_of(lower_seq(k)) == Some(ListStyleType::LowerRoman),
        lower_seq(k) == "upper-roman"@ ==> list_style_of(lower_seq(k)) == Some(ListStyleType::UpperRoman),
{
    reveal_strlit("none");
    reveal_strlit("disc");
    reveal_strlit("circle");
    reveal_strlit("square");
    reveal_strlit("decimal");
    reveal_strlit("lower-alpha");
    reveal_strlit("lower-latin");
    reveal_strlit("upper-alpha");
    reveal_strlit("upper-latin");
    reveal_strlit("lower-roman");
    reveal_strlit("upper-roman");
    assert("none"@.len() == 4);
    assert("disc"@.len() == 4);
    assert("circle"@.len() == 6);
    assert("square"@.len() == 6);
    assert("decimal"@.len() == 7);
    assert("lower-alpha"@.len() == 11);
    assert("lower-latin"@.len() == 11);
    assert("upper-alpha"@.len() == 11);
    assert("upper-latin"@.len() == 11);
    assert("lower-roman"@.len() == 11);
    assert("upper-roman"@.len() == 11);
    assert("none"@[0] != "disc"@[0]);
    assert("circle"@[0] != "square"@[0]);
    assert("lower-alpha"@[6] != "lower-latin"@[6]);
    assert("lower-alpha"@[0] != "upper-alpha"@[0]);
    assert("lower-alpha"@[0] != "upper-latin"@[0]);
    assert("lower-alpha"@[6] != "lower-roman"@[6]);
    assert("lower-alpha"@[0] != "upper-roman"@[0]);
    assert("lower-latin"@[0] != "upper-alpha"@[0]);
    assert("lower-latin"@[0] != "upper-latin"@[0]);
    assert("lower-latin"@[6] != "lower-roman"@[6]);
    assert("lower-latin"@[0] != "upper-roman"@[0]);
    assert("upper-alpha"@[6] != "upper-latin"@[6]);
    assert("upper-alpha"@[0] != "lower-roman"@[0]);
    assert("upper-alpha"@[6] != "upper-roman"@[6]);
    assert("upper-latin"@[0] != "lower-roman"@[0]);
    assert("upper-latin"@[6] != "upper-roman"@[6]);
    assert("lower-roman"@[0] != "upper-roman"@[0]);
}

/// Every `position` keyword, in any ASCII case, names its own value.
pub proof fn lemma_position_keywords(k: Seq<char>)
    ensures
        lower_seq(k) == "static"@ ==> position_of(lower_seq(k)) == Some(Position::Static),
        lower_seq(k) == "relative"@ ==> position_of(lower_seq(k)) == Some(Position::Relative),
        lower_seq(k) == "absolute"@ ==> position_of(lower_seq(k)) == Some(Position::Absolute),
        lower_seq(k) == "fixed"@ ==> position_of(lower_seq(k)) == Some(Position::Fixed),
        lower_seq(k) == "sticky"@ ==> position_of(lower_seq(k)) == Some(Position::Sticky),
{
    reveal_strlit("static");
    reveal_strlit("relative");
    reveal_strlit("absolute");
    reveal_strlit("fixed");
    reveal_strlit("sticky");
    assert("static"@.len() == 6);
    assert("relative"@.len() == 8);
    assert("absolute"@.len() == 8);
    assert("fixed"@.len() == 5);
    assert("sticky"@.len() == 6);
    assert("static"@[2] != "sticky"@[2]);
    assert("relative"@[0] != "absolute"@[0]);
}

/// Every `float` keyword, in any ASCII case, names its own value.
pub proof fn lemma_float_keywords(k: Seq<char>)
    ensures
        lower_seq(k) == "left"@ ==> float_of(lower_seq(k)) == Some(Float::Left),
        lower_seq(k) == "right"@ ==> float_of(lower_seq(k)) == Some(Float::Right),
        lower_seq(k) == "none"@ ==> float_of(lower_seq(k)) == Some(Float::KeywordNone),
{
    reveal_strlit("left");
    reveal_strlit("right");
    reveal_strlit("none");
    assert("left"@.len() == 4);
    assert("right"@.len() == 5);
    assert("none"@.len() == 4);
    assert("left"@[0] != "none"@[0]);
}

/// Every `clear` keyword, in any ASCII case, names its own value.
pub proof fn lemma_clear_keywords(k: Seq<char>)
    ensures
        lower_seq(k) == "left"@ ==> clear_of(lower_seq(k)) == Some(Clear::Left),
        lower_seq(k) == "right"@ ==> clear_of(lower_seq(k)) == Some(Clear::Right),
        lower_seq(k) == "both"@ ==> clear_of(lower_seq(k)) == Some(Clear::Both),
        lower_seq(k) == "none"@ ==> clear_of(lower_seq(k)) == Some(Clear::KeywordNone),
{
    reveal_strlit("left");
    reveal_strlit("right");
    reveal_strlit("both");
    reveal_strlit("none");
    assert("left"@.len() == 4);
    assert("right"@.len() == 5);
    assert("both"@.len() == 4);
    assert("none"@.len() == 4);
    assert("left"@[0] != "both"@[0]);
    assert("left"@[0] != "none"@[0]);
    assert("both"@[0] != "none"@[0]);
}

/// Every `box-sizing` keyword, in any ASCII case, names its own value.
pub proof fn lemma_box_sizing_keywords(k: Seq<char>)
    ensures
        lower_seq(k) == "border-box"@ ==> box_sizing_of(lower_seq(k)) == Some(BoxSizing::BorderBox),
        lower_seq(k) == "content-box"@ ==> box_sizing_of(lower_seq(k)) == Some(BoxSizing::ContentBox),
{
    reveal_strlit("border-box");
    reveal_strlit("content-box");
    assert("border-box"@.len() == 10);
    assert("content-box"@.len() == 11);

}

/// Every `visibility` keyword, in any ASCII case, names its own value.
pub proof fn lemma_visibility_keywords(k: Seq<char>)
    ensures
        lower_seq(k) == "hidden"@ ==> visibility_of(lower_seq(k)) == Some(Visibility::Hidden),
        lower_seq(k) == "collapse"@ ==> visibility_of(lower_seq(k)) == Some(Visibility::Hidden),
        lower_seq(k) == "visible"@ ==> visibility_of(lower_seq(k)) == Some(Visibility::Visible),
{
    reveal_strlit("hidden");
    reveal_strlit("collapse");
    reveal_strlit("visible");
    assert("hidden"@.len() == 6);
    assert("collapse"@.len() == 8);
    assert("visible"@.len() == 7);

}

/// Every `font-style` keyword, in any ASCII case, names its own value.
pub proof fn lemma_font_style_keywords(k: Seq<char>)
    ensures
        lower_seq(k) == "italic"@ ==> font_style_of(lower_seq(k)) == Some(FontStyle::Italic),
        lower_seq(k) == "oblique"@ ==> font_style_of(lower_seq(k)) == Some(FontStyle::Oblique),
        lower_seq(k) == "normal"@ ==> font_style_of(lower_seq(k)) == Some(FontStyle::Normal),
{
    reveal_strlit("italic");
    reveal_strlit("oblique");
    reveal_strlit("normal");
    assert("italic"@.len() == 6);
    assert("oblique"@.len() == 7);
    assert("normal"@.len() == 6);
    assert("italic"@[0] != "normal"@[0]);
}

/// Every `text-align` keyword, in any ASCII case, names its own value.
pub proof fn lemma_text_align_keywords(k: Seq<char>)
    ensures
        lower_seq(k) == "left"@ ==> text_align_of(lower_seq(k)) == Some(TextAlign::Left),
        lower_seq(k) == "right"@ ==> text_align_of(lower_seq(k)) == Some(TextAlign::Right),
        lower_seq(k) == "center"@ ==> text_align_of(lower_seq(k)) == Some(TextAlign::Center),
        lower_seq(k) == "justify"@ ==> text_align_of(lower_seq(k)) == Some(TextAlign::Justify),
        lower_seq(k) == "start"@ ==> text_align_of(lower_seq(k)) == Some(TextAlign::Start),
        lower_seq(k) == "end"@ ==> text_align_of(lower_seq(k)) == Some(TextAlign::End),
{
    reveal_strlit("left");
    reveal_strlit("right");
    reveal_strlit("center");
    reveal_strlit("justify");
    reveal_strlit("start");
    reveal_strlit("end");
    assert("left"@.len() == 4);
    assert("right"@.len() == 5);
    assert("center"@.len() == 6);
    assert("justify"@.len() == 7);
    assert("start"@.len() == 5);
    assert("end"@.len() == 3);
    assert("right"@[0] != "start"@[0]);
}

/// Every `text-transform` keyword, in any ASCII case, names its own value.
pub proof fn lemma_text_transform_keywords(k: Seq<char>)
    ensures
        lower_seq(k) == "uppercase"@ ==> text_transform_of(lower_seq(k)) == Some(TextTransform::Uppercase),
        lower_seq(k) == "lowercase"@ ==> text_transform_of(lower_seq(k)) == Some(TextTransform::Lowercase),
        lower_seq(k) == "capitalize"@ ==> text_transform_of(lower_seq(k)) == Some(TextTransform::Capitalize),
        lower_seq(k) == "none"@ ==> text_transform_of(lower_seq(k)) == Some(TextTransform::KeywordNone),
{
    reveal_strlit("uppercase");
    reveal_strlit("lowercase");
    reveal_strlit("capitalize");
    reveal_strlit("none");
    assert("uppercase"@.len() == 9);
    assert("lowercase"@.len() == 9);
    assert("capitalize"@.len() == 10);
    assert("none"@.len() == 4);
    assert("uppercase"@[0] != "lowercase"@[0]);
}

/// Every `white-space` keyword, in any ASCII case, names its own value.
pub proof fn lemma_white_space_keywords(k: Seq<char>)
    ensures
        lower_seq(k) == "nowrap"@ ==> white_space_of(lower_seq(k)) == Some(WhiteSpace::Nowrap),
        lower_seq(k) == "pre"@ ==> white_space_of(lower_seq(k)) == Some(WhiteSpace::Pre),
        lower_seq(k) == "pre-wrap"@ ==> white_space_of(lower_seq(k)) == Some(WhiteSpace::PreWrap),
        lower_seq(k) == "pre-line"@ ==> white_space_of(lower_seq(k)) == Some(WhiteSpace::PreLine),
        lower_seq(k) == "normal"@ ==> white_space_of(lower_seq(k)) == Some(WhiteSpace::Normal),
{
    reveal_strlit("nowrap");
    reveal_strlit("pre");
    reveal_strlit("pre-wrap");
    reveal_strlit("pre-line");
    reveal_strlit("normal");
    assert("nowrap"@.len() == 6);
    assert("pre"@.len() == 3);
    assert("pre-wrap"@.len() == 8);
    assert("pre-line"@.len() == 8);
    assert("normal"@.len() == 6);
    assert("nowrap"@[2] != "normal"@[2]);
    assert("pre-wrap"@[4] != "pre-line"@[4]);
}

/// Every `vertical-align` keyword, in any ASCII case, names its own value.
pub proof fn lemma_vertical_align_keywords(k: Seq<char>)
    ensures
        lower_seq(k) == "top"@ ==> vertical_align_of(lower_seq(k)) == Some(VerticalAlign::Top),
        lower_seq(k) == "middle"@ ==> vertical_align_of(lower_seq(k)) == Some(VerticalAlign::Middle),
        lower_seq(k) == "bottom"@ ==> vertical_align_of(lower_seq(k)) == Some(VerticalAlign::Bottom),
        lower_seq(k) == "text-top"@ ==> vertical_align_of(lower_seq(k)) == Some(VerticalAlign::TextTop),
        lower_seq(k) == "text-bottom"@ ==> vertical_align_of(lower_seq(k)) == Some(VerticalAlign::TextBottom),
        lower_seq(k) == "sub"@ ==> vertical_align_of(lower_seq(k)) == Some(VerticalAlign::Sub),
        lower_seq(k) == "super"@ ==> vertical_align_of(lower_seq(k)) == Some(VerticalAlign::Super),
        lower_seq(k) == "baseline"@ ==> vertical_align_of(lower_seq(k)) == Some(VerticalAlign::Baseline),
{
    reveal_strlit("top");
    reveal_strlit("middle");
    reveal_strlit("bottom");
    reveal_strlit("text-top");
    reveal_strlit("text-bottom");
    reveal_strlit("sub");
    reveal_strlit("super");
    reveal_strlit("baseline");
    assert("top"@.len() == 3);
    assert("middle"@.len() == 6);
    assert("bottom"@.len() == 6);
    assert("text-top"@.len() == 8);
    assert("text-bottom"@.len() == 11);
    assert("sub"@.len() == 3);
    assert("super"@.len() == 5);
    assert("baseline"@.len() == 8);
    assert("top"@[0] != "sub"@[0]);
    assert("middle"@[0] != "bottom"@[0]);
    assert("text-top"@[0] != "baseline"@[0]);
}

/// Every `flex-direction` keyword, in any ASCII case, names its own value.
pub proof fn lemma_flex_direction_keywords(k: Seq<char>)
    ensures
        lower_seq(k) == "row"@ ==> flex_direction_of(lower_seq(k)) == Some(FlexDirection::Row),
        lower_seq(k) == "row-reverse"@ ==> flex_direction_of(lower_seq(k)) == Some(FlexDirection::RowReverse),
        lower_seq(k) == "column"@ ==> flex_direction_of(lower_seq(k)) == Some(FlexDirection::Column),
        lower_seq(k) == "column-reverse"@ ==> flex_direction_of(lower_seq(k)) == Some(FlexDirection::ColumnReverse),
{
    reveal_strlit("row");
    reveal_strlit("row-reverse");
    reveal_strlit("column");
    reveal_strlit("column-reverse");
    assert("row"@.len() == 3);
    assert("row-reverse"@.len() == 11);
    assert("column"@.len() == 6);
    assert("column-reverse"@.len() == 14);

}

/// Every `flex-wrap` keyword, in any ASCII case, names its own value.
pub proof fn lemma_flex_wrap_keywords(k: Seq<char>)
    ensures
        lower_seq(k) == "wrap"@ ==> flex_wrap_of(lower_seq(k)) == Some(FlexWrap::Wrap),
        lower_seq(k) == "wrap-reverse"@ ==> flex_wrap_of(lower_seq(k)) == Some(FlexWrap::WrapReverse),
        lower_seq(k) == "nowrap"@ ==> flex_wrap_of(lower_seq(k)) == Some(FlexWrap::NoWrap),
{
    reveal_strlit("wrap");
    reveal_strlit("wrap-reverse");
    reveal_strlit("nowrap");
    assert("wrap"@.len() == 4);
    assert("wrap-reverse"@.len() == 12);
    assert("nowrap"@.len() == 6);

}

/// Every `align-items` keyword, in any ASCII case, names its own value.
pub proof fn lemma_align_items_keywords(k: Seq<char>)
    ensures
        lower_seq(k) == "flex-start"@ ==> align_items_of(lower_seq(k)) == Some(AlignItems::Start),
        lower_seq(k) == "start"@ ==> align_items_of(lower_seq(k)) == Some(AlignItems::Start),
        lower_seq(k) == "flex-end"@ ==> align_items_of(lower_seq(k)) == Some(AlignItems::End),
        lower_seq(k) == "end"@ ==> align_items_of(lower_seq(k)) == Some(AlignItems::End),
        lower_seq(k) == "center"@ ==> align_items_of(lower_seq(k)) == Some(AlignItems::Center),
        lower_seq(k) == "baseline"@ ==> align_items_of(lower_seq(k)) == Some(AlignItems::Baseline),
        lower_seq(k) == "stretch"@ ==> align_items_of(lower_seq(k)) == Some(AlignItems::Stretch),
        lower_seq(k) == "normal"@ ==> align_items_of(lower_seq(k)) == Some(AlignItems::Stretch),
{
    reveal_strlit("flex-start");
    reveal_strlit("start");
    reveal_strlit("flex-end");
    reveal_strlit("end");
    reveal_strlit("center");
    reveal_strlit("baseline");
    reveal_strlit("stretch");
    reveal_strlit("normal");
    assert("flex-start"@.len() == 10);
    assert("start"@.len() == 5);
    assert("flex-end"@.len() == 8);
    assert("end"@.len() == 3);
    assert("center"@.len() == 6);
    assert("baseline"@.len() == 8);
    assert("stretch"@.len() == 7);
    assert("normal"@.len() == 6);
    assert("flex-end"@[0] != "baseline"@[0]);
    assert("center"@[0] != "normal"@[0]);
}

/// Every `align-self` keyword, in any ASCII case, names its own value.
pub proof fn lemma_align_self_keywords(k: Seq<char>)
    ensures
        lower_seq(k) == "auto"@ ==> align_self_of(lower_seq(k)) == Some(AlignSelf::Auto),
        lower_seq(k) == "flex-start"@ ==> align_self_of(lower_seq(k)) == Some(AlignSelf::Start),
        lower_seq(k) == "start"@ ==> align_self_of(lower_seq(k)) == Some(AlignSelf::Start),
        lower_seq(k) == "flex-end"@ ==> align_self_of(lower_seq(k)) == Some(AlignSelf::End),
        lower_seq(k) == "end"@ ==> align_self_of(lower_seq(k)) == Some(AlignSelf::End),
        lower_seq(k) == "center"@ ==> align_self_of(lower_seq(k)) == Some(AlignSelf::Center),
        lower_seq(k) == "baseline"@ ==> align_self_of(lower_seq(k)) == Some(AlignSelf::Baseline),
        lower_seq(k) == "stretch"@ ==> align_self_of(lower_seq(k)) == Some(AlignSelf::Stretch),
{
    reveal_strlit("auto");
    reveal_strlit("flex-start");
    reveal_strlit("start");
    reveal_strlit("flex-end");
    reveal_strlit("end");
    reveal_strlit("center");
    reveal_strlit("baseline");
    reveal_strlit("stretch");
    assert("auto"@.len() == 4);
    assert("flex-start"@.len() == 10);
    assert("start"@.len() == 5);
    assert("flex-end"@.len() == 8);
    assert("end"@.len() == 3);
    assert("center"@.len() == 6);
    assert("baseline"@.len() == 8);
    assert("stretch"@.len() == 7);
    assert("flex-end"@[0] != "baseline"@[0]);
}

/// Every `background-size` keyword, in any ASCII case, names its own value.
pub proof fn lemma_background_size_keywords(k: Seq<char>)
    ensures
        lower_seq(k) == "cover"@ ==> background_size_of(lower_seq(k)) == BackgroundSize::Cover,
        lower_seq(k) == "contain"@ ==> background_size_of(lower_seq(k)) == BackgroundSize::Contain,
{
    reveal_strlit("cover");
    reveal_strlit("contain");
    assert("cover"@.len() == 5);
    assert("contain"@.len() == 7);

}

/// Every `background-repeat` keyword, in any ASCII case, names its own value.
pub proof fn lemma_background_repeat_keywords(k: Seq<char>)
    ensures
        lower_seq(k) == "no-repeat"@ ==> background_repeat_of(lower_seq(k)) == BackgroundRepeat::NoRepeat,
        lower_seq(k) == "repeat-x"@ ==> background_repeat_of(lower_seq(k)) == BackgroundRepeat::RepeatX,
        lower_seq(k) == "repeat-y"@ ==> background_repeat_of(lower_seq(k)) == BackgroundRepeat::RepeatY,
{
    reveal_strlit("no-repeat");
    reveal_strlit("repeat-x");
    reveal_strlit("repeat-y");
    assert("no-repeat"@.len() == 9);
    assert("repeat-x"@.len() == 8);
    assert("repeat-y"@.len() == 8);
    assert("repeat-x"@[7] != "repeat-y"@[7]);
}

/// Every `cursor` keyword, in any ASCII case, names its own value.
pub proof fn lemma_cursor_keywords(k: Seq<char>)
    ensures
        lower_seq(k) == "pointer"@ ==> cursor_of(lower_seq(k)) == Cursor::Pointer,
        lower_seq(k) == "text"@ ==> cursor_of(lower_seq(k)) == Cursor::Text,
        lower_seq(k) == "move"@ ==> cursor_of(lower_seq(k)) == Cursor::Move,
        lower_seq(k) == "not-allowed"@ ==> cursor_of(lower_seq(k)) == Cursor::NotAllowed,
        lower_seq(k) == "grab"@ ==> cursor_of(lower_seq(k)) == Cursor::Grab,
        lower_seq(k) == "default"@ ==> cursor_of(lower_seq(k)) == Cursor::Default,
{
    reveal_strlit("pointer");
    reveal_strlit("text");
    reveal_strlit("move");
    reveal_strlit("not-allowed");
    reveal_strlit("grab");
    reveal_strlit("default");
    assert("pointer"@.len() == 7);
    assert("text"@.len() == 4);
    assert("move"@.len() == 4);
    assert("not-allowed"@.len() == 11);
    assert("grab"@.len() == 4);
    assert("default"@.len() == 7);
    assert("pointer"@[0] != "default"@[0]);
    assert("text"@[0] != "move"@[0]);
    assert("text"@[0] != "grab"@[0]);
    assert("move"@[0] != "grab"@[0]);
}

/// The CSS-wide keywords, in any ASCII case: `inherit` takes the parent's
/// value, `initial` the initial one, and `unset` and `revert` the parent's
/// for an inherited property and the initial one for any other.
pub proof fn lemma_css_wide_keywords(k: Seq<char>, property: Seq<char>)
    ensures
        lower_seq(k) == "inherit"@ ==> css_wide_source(lower_seq(k), property) == Some(ValueSource::Parent),
        lower_seq(k) == "initial"@ ==> css_wide_source(lower_seq(k), property) == Some(ValueSource::Initial),
        lower_seq(k) == "unset"@ || lower_seq(k) == "revert"@ ==> css_wide_source(lower_seq(k), property)
            == Some(if inherited_property(property) {
            ValueSource::Parent
        } else {
            ValueSource::Initial
        }),
{
    reveal_strlit("inherit");
    reveal_strlit("initial");
    reveal_strlit("unset");
    reveal_strlit("revert");
    assert("inherit"@.len() == 7);
    assert("initial"@.len() == 7);
    assert("unset"@.len() == 5);
    assert("revert"@.len() == 6);
    assert("inherit"@[2] != "initial"@[2]);
}

/// The `font-weight` keywords, in any ASCII case: `normal` is 400, `bold`
/// 700, `lighter` one step lighter than the parent (400 from 600 up, else
/// 100) and `bolder` one step bolder (700 up to 500, else 900).
pub proof fn lemma_font_weight_keywords(k: Seq<char>, parent_weight: u16)
    ensures
        lower_seq(k) == "normal"@ ==> font_weight_of(lower_seq(k), parent_weight) == Some(400u16),
        lower_seq(k) == "bold"@ ==> font_weight_of(lower_seq(k), parent_weight) == Some(700u16),
        lower_seq(k) == "lighter"@ ==> font_weight_of(lower_seq(k), parent_weight) == Some(
            if parent_weight >= 600 {
                400u16
            } else {
                100u16
            },
        ),
        lower_seq(k) == "bolder"@ ==> font_weight_of(lower_seq(k), parent_weight) == Some(
            if parent_weight <= 500 {
                700u16
            } else {
                900u16
            },
        ),
{
    reveal_strlit("normal");
    reveal_strlit("bold");
    reveal_strlit("lighter");
    reveal_strlit("bolder");
    assert("normal"@.len() == 6);
    assert("bold"@.len() == 4);
    assert("lighter"@.len() == 7);
    assert("bolder"@.len() == 6);
    assert("normal"@[0] != "bolder"@[0]);
}

/// A line keyword among the (lower-case) keywords of `text-decoration`.
pub open spec fn names_line(keywords: Seq<Seq<char>>, line: Seq<char>) -> bool {
    exists|i: int| 0 <= i < keywords.len() && keywords[i] == line
}

/// `text-decoration` draws exactly the lines its keywords name, whatever
/// their order and whatever else is among them; it sets the property when
/// some keyword is a line or `none`, and leaves it alone otherwise.
pub proof fn lemma_decoration_draws_the_named_lines(keywords: Seq<Seq<char>>)
    ensures
        decoration_lines(keywords) is Some <==> (names_line(keywords, "underline"@) || names_line(
            keywords,
            "overline"@,
        ) || names_line(keywords, "line-through"@) || names_line(keywords, "none"@)),
        decoration_lines(keywords) matches Some(d) ==> {
            &&& d.underline == names_line(keywords, "underline"@)
            &&& d.overline == names_line(keywords, "overline"@)
            &&& d.line_through == names_line(keywords, "line-through"@)
        },
    decreases keywords.len(),
{
    reveal_strlit("underline");
    reveal_strlit("overline");
    reveal_strlit("line-through");
    reveal_strlit("none");
    assert("underline"@.len() == 9);
    assert("overline"@.len() == 8);
    assert("line-through"@.len() == 12);
    assert("none"@.len() == 4);
    if keywords.len() > 0 {
        let front = keywords.drop_last();
        lemma_decoration_draws_the_named_lines(front);
        let k = keywords.last();
        assert(keywords[keywords.len() - 1] == k);
        assert forall|line: Seq<char>| #[trigger] names_line(keywords, line) == (names_line(front, line)
            || k == line) by {
            if names_line(keywords, line) && !(k == line) {
                let i = choose|i: int| 0 <= i < keywords.len() && keywords[i] == line;
                assert(front[i] == keywords[i]);
            }
            if names_line(front, line) {
                let i = choose|i: int| 0 <= i < front.len() && front[i] == line;
                assert(keywords[i] == front[i]);
            }
        }
    }
}

} // verus!
