//! Which fields of the computed style a property name stands for, so that
//! `inherit`, `initial` and `unset` copy exactly those fields.
use vstd::prelude::*;

use crate::chars::str_equal;

verus! {

/// A field of the computed style, as far as copying a property moves it.
#[derive(Clone, Copy, Debug, PartialEq, Eq, Structural)]
pub enum StyleField {
    Color,
    Cursor,
    FontFamily,
    FontSize,
    FontStyle,
    FontWeight,
    LineHeight,
    LetterSpacing,
    ListStylePosition,
    ListStyleType,
    TextAlign,
    TextDecoration,
    TextDecorationColor,
    TextIndent,
    TextShadow,
    TextTransform,
    Visibility,
    WhiteSpace,
    WordSpacing,
    Display,
    Position,
    Float,
    Clear,
    BoxSizing,
    Opacity,
    ZIndex,
    OverflowX,
    OverflowY,
    Width,
    Height,
    MinWidth,
    MaxWidth,
    MinHeight,
    MaxHeight,
    MarginTop,
    MarginRight,
    MarginBottom,
    MarginLeft,
    PaddingTop,
    PaddingRight,
    PaddingBottom,
    PaddingLeft,
    BorderWidth,
    BorderStyle,
    BorderColor,
    BorderRadius,
    BackgroundColor,
    BackgroundImage,
    BoxShadow,
    Filter,
    BackdropFilter,
    Transform,
    FlexDirection,
    FlexWrap,
    JustifyContent,
    AlignItems,
    AlignContent,
    AlignSelf,
    FlexGrow,
    FlexShrink,
    FlexBasis,
    Order,
    RowGap,
    ColumnGap,
    GridTemplateColumns,
}

/// The fields of the properties in one part of the table.
pub open spec fn fields_in_part_0(name: Seq<char>) -> Option<Seq<StyleField>> {
    if name == "color"@ {
        Some(seq![StyleField::Color])
    } else if name == "cursor"@ {
        Some(seq![StyleField::Cursor])
    } else if name == "font-family"@ {
        Some(seq![StyleField::FontFamily])
    } else if name == "font-size"@ {
        Some(seq![StyleField::FontSize])
    } else if name == "font-style"@ {
        Some(seq![StyleField::FontStyle])
    } else if name == "font-weight"@ {
        Some(seq![StyleField::FontWeight])
    } else if name == "font"@ {
        Some(seq![StyleField::FontFamily, StyleField::FontSize, StyleField::FontStyle, StyleField::FontWeight, StyleField::LineHeight])
    } else if name == "letter-spacing"@ {
        Some(seq![StyleField::LetterSpacing])
    } else if name == "line-height"@ {
        Some(seq![StyleField::LineHeight])
    } else if name == "list-style-position"@ {
        Some(seq![StyleField::ListStylePosition])
    } else if name == "list-style-type"@ {
        Some(seq![StyleField::ListStyleType])
    } else if name == "text-align"@ {
        Some(seq![StyleField::TextAlign])
    } else {
        None
    }
}

/// The fields of the properties in one part of the table.
pub open spec fn fields_in_part_1(name: Seq<char>) -> Option<Seq<StyleField>> {
    if name == "text-decoration"@ || name == "text-decoration-line"@ {
        Some(seq![StyleField::TextDecoration, StyleField::TextDecorationColor])
    } else if name == "text-indent"@ {
        Some(seq![StyleField::TextIndent])
    } else if name == "text-shadow"@ {
        Some(seq![StyleField::TextShadow])
    } else if name == "text-transform"@ {
        Some(seq![StyleField::TextTransform])
    } else if name == "visibility"@ {
        Some(seq![StyleField::Visibility])
    } else if name == "white-space"@ {
        Some(seq![StyleField::WhiteSpace])
    } else if name == "word-spacing"@ {
        Some(seq![StyleField::WordSpacing])
    } else if name == "display"@ {
        Some(seq![StyleField::Display])
    } else if name == "position"@ {
        Some(seq![StyleField::Position])
    } else if name == "float"@ {
        Some(seq![StyleField::Float])
    } else if name == "clear"@ {
        Some(seq![StyleField::Clear])
    } else if name == "box-sizing"@ {
        Some(seq![StyleField::BoxSizing])
    } else {
        None
    }
}

/// The fields of the properties in one part of the table.
pub open spec fn fields_in_part_2(name: Seq<char>) -> Option<Seq<StyleField>> {
    if name == "opacity"@ {
        Some(seq![StyleField::Opacity])
    } else if name == "z-index"@ {
        Some(seq![StyleField::ZIndex])
    } else if name == "overflow"@ {
        Some(seq![StyleField::OverflowX, StyleField::OverflowY])
    } else if name == "overflow-x"@ {
        Some(seq![StyleField::OverflowX])
    } else if name == "overflow-y"@ {
        Some(seq![StyleField::OverflowY])
    } else if name == "width"@ {
        Some(seq![StyleField::Width])
    } else if name == "height"@ {
        Some(seq![StyleField::Height])
    } else if name == "min-width"@ {
        Some(seq![StyleField::MinWidth])
    } else if name == "max-width"@ {
        Some(seq![StyleField::MaxWidth])
    } else if name == "min-height"@ {
        Some(seq![StyleField::MinHeight])
    } else if name == "max-height"@ {
        Some(seq![StyleField::MaxHeight])
    } else if name == "margin"@ {
        Some(seq![StyleField::MarginTop, StyleField::MarginRight, StyleField::MarginBottom, StyleField::MarginLeft])
    } else {
        None
    }
}

/// The fields of the properties in one part of the table.
pub open spec fn fields_in_part_3(name: Seq<char>) -> Option<Seq<StyleField>> {
    if name == "margin-top"@ {
        Some(seq![StyleField::MarginTop])
    } else if name == "margin-right"@ {
        Some(seq![StyleField::MarginRight])
    } else if name == "margin-bottom"@ {
        Some(seq![StyleField::MarginBottom])
    } else if name == "margin-left"@ {
        Some(seq![StyleField::MarginLeft])
    } else if name == "padding"@ {
        Some(seq![StyleField::PaddingTop, StyleField::PaddingRight, StyleField::PaddingBottom, StyleField::PaddingLeft])
    } else if name == "padding-top"@ {
        Some(seq![StyleField::PaddingTop])
    } else if name == "padding-right"@ {
        Some(seq![StyleField::PaddingRight])
    } else if name == "padding-bottom"@ {
        Some(seq![StyleField::PaddingBottom])
    } else if name == "padding-left"@ {
        Some(seq![StyleField::PaddingLeft])
    } else if name == "border"@ {
        Some(seq![StyleField::BorderWidth, StyleField::BorderStyle, StyleField::BorderColor])
    } else if name == "border-radius"@ {
        Some(seq![StyleField::BorderRadius])
    } else if name == "background"@ {
        Some(seq![StyleField::BackgroundColor, StyleField::BackgroundImage])
    } else {
        None
    }
}

/// The fields of the properties in one part of the table.
pub open spec fn fields_in_part_4(name: Seq<char>) -> Option<Seq<StyleField>> {
    if name == "background-color"@ {
        Some(seq![StyleField::BackgroundColor])
    } else if name == "background-image"@ {
        Some(seq![StyleField::BackgroundImage])
    } else if name == "box-shadow"@ {
        Some(seq![StyleField::BoxShadow])
    } else if name == "filter"@ {
        Some(seq![StyleField::Filter])
    } else if name == "backdrop-filter"@ || name == "-webkit-backdrop-filter"@ {
        Some(seq![StyleField::BackdropFilter])
    } else if name == "transform"@ {
        Some(seq![StyleField::Transform])
    } else if name == "flex-direction"@ {
        Some(seq![StyleField::FlexDirection])
    } else if name == "flex-wrap"@ {
        Some(seq![StyleField::FlexWrap])
    } else if name == "justify-content"@ {
        Some(seq![StyleField::JustifyContent])
    } else if name == "align-items"@ {
        Some(seq![StyleField::AlignItems])
    } else if name == "align-content"@ {
        Some(seq![StyleField::AlignContent])
    } else if name == "align-self"@ {
        Some(seq![StyleField::AlignSelf])
    } else {
        None
    }
}

/// The fields of the properties in one part of the table.
pub open spec fn fields_in_part_5(name: Seq<char>) -> Option<Seq<StyleField>> {
    if name == "flex-grow"@ {
        Some(seq![StyleField::FlexGrow])
    } else if name == "flex-shrink"@ {
        Some(seq![StyleField::FlexShrink])
    } else if name == "flex-basis"@ {
        Some(seq![StyleField::FlexBasis])
    } else if name == "flex"@ {
        Some(seq![StyleField::FlexGrow, StyleField::FlexShrink, StyleField::FlexBasis])
    } else if name == "order"@ {
        Some(seq![StyleField::Order])
    } else if name == "gap"@ {
        Some(seq![StyleField::RowGap, StyleField::ColumnGap])
    } else if name == "row-gap"@ {
        Some(seq![StyleField::RowGap])
    } else if name == "column-gap"@ {
        Some(seq![StyleField::ColumnGap])
    } else if name == "grid-template-columns"@ {
        Some(seq![StyleField::GridTemplateColumns])
    } else {
        None
    }
}

/// The fields a property name stands for, in the order they are copied;
/// none for a property that is not copied.
pub open spec fn fields_of_property(name: Seq<char>) -> Seq<StyleField> {
    if let Some(fields) = fields_in_part_0(name) {
        fields
    } else if let Some(fields) = fields_in_part_1(name) {
        fields
    } else if let Some(fields) = fields_in_part_2(name) {
        fields
    } else if let Some(fields) = fields_in_part_3(name) {
        fields
    } else if let Some(fields) = fields_in_part_4(name) {
        fields
    } else if let Some(fields) = fields_in_part_5(name) {
        fields
    } else {
        Seq::empty()
    }
}

fn copied_fields_in_part_0(name: &str) -> (r: Option<Vec<StyleField>>)
    ensures
        match r {
            Some(v) => fields_in_part_0(name@) == Some(v@),
            None => fields_in_part_0(name@) is None,
        },
{
    if str_equal(name, "color") {
        let v = vec![StyleField::Color];
        assert(v@ =~= seq![StyleField::Color]);
        Some(v)
    } else if str_equal(name, "cursor") {
        let v = vec![StyleField::Cursor];
        assert(v@ =~= seq![StyleField::Cursor]);
        Some(v)
    } else if str_equal(name, "font-family") {
        let v = vec![StyleField::FontFamily];
        assert(v@ =~= seq![StyleField::FontFamily]);
        Some(v)
    } else if str_equal(name, "font-size") {
        let v = vec![StyleField::FontSize];
        assert(v@ =~= seq![StyleField::FontSize]);
        Some(v)
    } else if str_equal(name, "font-style") {
        let v = vec![StyleField::FontStyle];
        assert(v@ =~= seq![StyleField::FontStyle]);
        Some(v)
    } else if str_equal(name, "font-weight") {
        let v = vec![StyleField::FontWeight];
        assert(v@ =~= seq![StyleField::FontWeight]);
        Some(v)
    } else if str_equal(name, "font") {
        let v = vec![StyleField::FontFamily, StyleField::FontSize, StyleField::FontStyle, StyleField::FontWeight, StyleField::LineHeight];
        assert(v@ =~= seq![StyleField::FontFamily, StyleField::FontSize, StyleField::FontStyle, StyleField::FontWeight, StyleField::LineHeight]);
        Some(v)
    } else if str_equal(name, "letter-spacing") {
        let v = vec![StyleField::LetterSpacing];
        assert(v@ =~= seq![StyleField::LetterSpacing]);
        Some(v)
    } else if str_equal(name, "line-height") {
        let v = vec![StyleField::LineHeight];
        assert(v@ =~= seq![StyleField::LineHeight]);
        Some(v)
    } else if str_equal(name, "list-style-position") {
        let v = vec![StyleField::ListStylePosition];
        assert(v@ =~= seq![StyleField::ListStylePosition]);
        Some(v)
    } else if str_equal(name, "list-style-type") {
        let v = vec![StyleField::ListStyleType];
        assert(v@ =~= seq![StyleField::ListStyleType]);
        Some(v)
    } else if str_equal(name, "text-align") {
        let v = vec![StyleField::TextAlign];
        assert(v@ =~= seq![StyleField::TextAlign]);
        Some(v)
    } else {
        None
    }
}

fn copied_fields_in_part_1(name: &str) -> (r: Option<Vec<StyleField>>)
    ensures
        match r {
            Some(v) => fields_in_part_1(name@) == Some(v@),
            None => fields_in_part_1(name@) is None,
        },
{
    if str_equal(name, "text-decoration") || str_equal(name, "text-decoration-line") {
        let v = vec![StyleField::TextDecoration, StyleField::TextDecorationColor];
        assert(v@ =~= seq![StyleField::TextDecoration, StyleField::TextDecorationColor]);
        Some(v)
    } else if str_equal(name, "text-indent") {
        let v = vec![StyleField::TextIndent];
        assert(v@ =~= seq![StyleField::TextIndent]);
        Some(v)
    } else if str_equal(name, "text-shadow") {
        let v = vec![StyleField::TextShadow];
        assert(v@ =~= seq![StyleField::TextShadow]);
        Some(v)
    } else if str_equal(name, "text-transform") {
        let v = vec![StyleField::TextTransform];
        assert(v@ =~= seq![StyleField::TextTransform]);
        Some(v)
    } else if str_equal(name, "visibility") {
        let v = vec![StyleField::Visibility];
        assert(v@ =~= seq![StyleField::Visibility]);
        Some(v)
    } else if str_equal(name, "white-space") {
        let v = vec![StyleField::WhiteSpace];
        assert(v@ =~= seq![StyleField::WhiteSpace]);
        Some(v)
    } else if str_equal(name, "word-spacing") {
        let v = vec![StyleField::WordSpacing];
        assert(v@ =~= seq![StyleField::WordSpacing]);
        Some(v)
    } else if str_equal(name, "display") {
        let v = vec![StyleField::Display];
        assert(v@ =~= seq![StyleField::Display]);
        Some(v)
    } else if str_equal(name, "position") {
        let v = vec![StyleField::Position];
        assert(v@ =~= seq![StyleField::Position]);
        Some(v)
    } else if str_equal(name, "float") {
        let v = vec![StyleField::Float];
        assert(v@ =~= seq![StyleField::Float]);
        Some(v)
    } else if str_equal(name, "clear") {
        let v = vec![StyleField::Clear];
        assert(v@ =~= seq![StyleField::Clear]);
        Some(v)
    } else if str_equal(name, "box-sizing") {
        let v = vec![StyleField::BoxSizing];
        assert(v@ =~= seq![StyleField::BoxSizing]);
        Some(v)
    } else {
        None
    }
}

fn copied_fields_in_part_2(name: &str) -> (r: Option<Vec<StyleField>>)
    ensures
        match r {
            Some(v) => fields_in_part_2(name@) == Some(v@),
            None => fields_in_part_2(name@) is None,
        },
{
    if str_equal(name, "opacity") {
        let v = vec![StyleField::Opacity];
        assert(v@ =~= seq![StyleField::Opacity]);
        Some(v)
    } else if str_equal(name, "z-index") {
        let v = vec![StyleField::ZIndex];
        assert(v@ =~= seq![StyleField::ZIndex]);
        Some(v)
    } else if str_equal(name, "overflow") {
        let v = vec![StyleField::OverflowX, StyleField::OverflowY];
        assert(v@ =~= seq![StyleField::OverflowX, StyleField::OverflowY]);
        Some(v)
    } else if str_equal(name, "overflow-x") {
        let v = vec![StyleField::OverflowX];
        assert(v@ =~= seq![StyleField::OverflowX]);
        Some(v)
    } else if str_equal(name, "overflow-y") {
        let v = vec![StyleField::OverflowY];
        assert(v@ =~= seq![StyleField::OverflowY]);
        Some(v)
    } else if str_equal(name, "width") {
        let v = vec![StyleField::Width];
        assert(v@ =~= seq![StyleField::Width]);
        Some(v)
    } else if str_equal(name, "height") {
        let v = vec![StyleField::Height];
        assert(v@ =~= seq![StyleField::Height]);
        Some(v)
    } else if str_equal(name, "min-width") {
        let v = vec![StyleField::MinWidth];
        assert(v@ =~= seq![StyleField::MinWidth]);
        Some(v)
    } else if str_equal(name, "max-width") {
        let v = vec![StyleField::MaxWidth];
        assert(v@ =~= seq![StyleField::MaxWidth]);
        Some(v)
    } else if str_equal(name, "min-height") {
        let v = vec![StyleField::MinHeight];
        assert(v@ =~= seq![StyleField::MinHeight]);
        Some(v)
    } else if str_equal(name, "max-height") {
        let v = vec![StyleField::MaxHeight];
        assert(v@ =~= seq![StyleField::MaxHeight]);
        Some(v)
    } else if str_equal(name, "margin") {
        let v = vec![StyleField::MarginTop, StyleField::MarginRight, StyleField::MarginBottom, StyleField::MarginLeft];
        assert(v@ =~= seq![StyleField::MarginTop, StyleField::MarginRight, StyleField::MarginBottom, StyleField::MarginLeft]);
        Some(v)
    } else {
        None
    }
}

fn copied_fields_in_part_3(name: &str) -> (r: Option<Vec<StyleField>>)
    ensures
        match r {
            Some(v) => fields_in_part_3(name@) == Some(v@),
            None => fields_in_part_3(name@) is None,
        },
{
    if str_equal(name, "margin-top") {
        let v = vec![StyleField::MarginTop];
        assert(v@ =~= seq![StyleField::MarginTop]);
        Some(v)
    } else if str_equal(name, "margin-right") {
        let v = vec![StyleField::MarginRight];
        assert(v@ =~= seq![StyleField::MarginRight]);
        Some(v)
    } else if str_equal(name, "margin-bottom") {
        let v = vec![StyleField::MarginBottom];
        assert(v@ =~= seq![StyleField::MarginBottom]);
        Some(v)
    } else if str_equal(name, "margin-left") {
        let v = vec![StyleField::MarginLeft];
        assert(v@ =~= seq![StyleField::MarginLeft]);
        Some(v)
    } else if str_equal(name, "padding") {
        let v = vec![StyleField::PaddingTop, StyleField::PaddingRight, StyleField::PaddingBottom, StyleField::PaddingLeft];
        assert(v@ =~= seq![StyleField::PaddingTop, StyleField::PaddingRight, StyleField::PaddingBottom, StyleField::PaddingLeft]);
        Some(v)
    } else if str_equal(name, "padding-top") {
        let v = vec![StyleField::PaddingTop];
        assert(v@ =~= seq![StyleField::PaddingTop]);
        Some(v)
    } else if str_equal(name, "padding-right") {
        let v = vec![StyleField::PaddingRight];
        assert(v@ =~= seq![StyleField::PaddingRight]);
        Some(v)
    } else if str_equal(name, "padding-bottom") {
        let v = vec![StyleField::PaddingBottom];
        assert(v@ =~= seq![StyleField::PaddingBottom]);
        Some(v)
    } else if str_equal(name, "padding-left") {
        let v = vec![StyleField::PaddingLeft];
        assert(v@ =~= seq![StyleField::PaddingLeft]);
        Some(v)
    } else if str_equal(name, "border") {
        let v = vec![StyleField::BorderWidth, StyleField::BorderStyle, StyleField::BorderColor];
        assert(v@ =~= seq![StyleField::BorderWidth, StyleField::BorderStyle, StyleField::BorderColor]);
        Some(v)
    } else if str_equal(name, "border-radius") {
        let v = vec![StyleField::BorderRadius];
        assert(v@ =~= seq![StyleField::BorderRadius]);
        Some(v)
    } else if str_equal(name, "background") {
        let v = vec![StyleField::BackgroundColor, StyleField::BackgroundImage];
        assert(v@ =~= seq![StyleField::BackgroundColor, StyleField::BackgroundImage]);
        Some(v)
    } else {
        None
    }
}

fn copied_fields_in_part_4(name: &str) -> (r: Option<Vec<StyleField>>)
    ensures
        match r {
            Some(v) => fields_in_part_4(name@) == Some(v@),
            None => fields_in_part_4(name@) is None,
        },
{
    if str_equal(name, "background-color") {
        let v = vec![StyleField::BackgroundColor];
        assert(v@ =~= seq![StyleField::BackgroundColor]);
        Some(v)
    } else if str_equal(name, "background-image") {
        let v = vec![StyleField::BackgroundImage];
        assert(v@ =~= seq![StyleField::BackgroundImage]);
        Some(v)
    } else if str_equal(name, "box-shadow") {
        let v = vec![StyleField::BoxShadow];
        assert(v@ =~= seq![StyleField::BoxShadow]);
        Some(v)
    } else if str_equal(name, "filter") {
        let v = vec![StyleField::Filter];
        assert(v@ =~= seq![StyleField::Filter]);
        Some(v)
    } else if str_equal(name, "backdrop-filter") || str_equal(name, "-webkit-backdrop-filter") {
        let v = vec![StyleField::BackdropFilter];
        assert(v@ =~= seq![StyleField::BackdropFilter]);
        Some(v)
    } else if str_equal(name, "transform") {
        let v = vec![StyleField::Transform];
        assert(v@ =~= seq![StyleField::Transform]);
        Some(v)
    } else if str_equal(name, "flex-direction") {
        let v = vec![StyleField::FlexDirection];
        assert(v@ =~= seq![StyleField::FlexDirection]);
        Some(v)
    } else if str_equal(name, "flex-wrap") {
        let v = vec![StyleField::FlexWrap];
        assert(v@ =~= seq![StyleField::FlexWrap]);
        Some(v)
    } else if str_equal(name, "justify-content") {
        let v = vec![StyleField::JustifyContent];
        assert(v@ =~= seq![StyleField::JustifyContent]);
        Some(v)
    } else if str_equal(name, "align-items") {
        let v = vec![StyleField::AlignItems];
        assert(v@ =~= seq![StyleField::AlignItems]);
        Some(v)
    } else if str_equal(name, "align-content") {
        let v = vec![StyleField::AlignContent];
        assert(v@ =~= seq![StyleField::AlignContent]);
        Some(v)
    } else if str_equal(name, "align-self") {
        let v = vec![StyleField::AlignSelf];
        assert(v@ =~= seq![StyleField::AlignSelf]);
        Some(v)
    } else {
        None
    }
}

fn copied_fields_in_part_5(name: &str) -> (r: Option<Vec<StyleField>>)
    ensures
        match r {
            Some(v) => fields_in_part_5(name@) == Some(v@),
            None => fields_in_part_5(name@) is None,
        },
{
    if str_equal(name, "flex-grow") {
        let v = vec![StyleField::FlexGrow];
        assert(v@ =~= seq![StyleField::FlexGrow]);
        Some(v)
    } else if str_equal(name, "flex-shrink") {
        let v = vec![StyleField::FlexShrink];
        assert(v@ =~= seq![StyleField::FlexShrink]);
        Some(v)
    } else if str_equal(name, "flex-basis") {
        let v = vec![StyleField::FlexBasis];
        assert(v@ =~= seq![StyleField::FlexBasis]);
        Some(v)
    } else if str_equal(name, "flex") {
        let v = vec![StyleField::FlexGrow, StyleField::FlexShrink, StyleField::FlexBasis];
        assert(v@ =~= seq![StyleField::FlexGrow, StyleField::FlexShrink, StyleField::FlexBasis]);
        Some(v)
    } else if str_equal(name, "order") {
        let v = vec![StyleField::Order];
        assert(v@ =~= seq![StyleField::Order]);
        Some(v)
    } else if str_equal(name, "gap") {
        let v = vec![StyleField::RowGap, StyleField::ColumnGap];
        assert(v@ =~= seq![StyleField::RowGap, StyleField::ColumnGap]);
        Some(v)
    } else if str_equal(name, "row-gap") {
        let v = vec![StyleField::RowGap];
        assert(v@ =~= seq![StyleField::RowGap]);
        Some(v)
    } else if str_equal(name, "column-gap") {
        let v = vec![StyleField::ColumnGap];
        assert(v@ =~= seq![StyleField::ColumnGap]);
        Some(v)
    } else if str_equal(name, "grid-template-columns") {
        let v = vec![StyleField::GridTemplateColumns];
        assert(v@ =~= seq![StyleField::GridTemplateColumns]);
        Some(v)
    } else {
        None
    }
}

/// The fields of the computed style that `inherit`, `initial` or `unset`
/// copy for the property `name`.
pub fn copied_fields(name: &str) -> (r: Vec<StyleField>)
    ensures
        r@ == fields_of_property(name@),
{
    if let Some(fields) = copied_fields_in_part_0(name) {
        fields
    } else if let Some(fields) = copied_fields_in_part_1(name) {
        fields
    } else if let Some(fields) = copied_fields_in_part_2(name) {
        fields
    } else if let Some(fields) = copied_fields_in_part_3(name) {
        fields
    } else if let Some(fields) = copied_fields_in_part_4(name) {
        fields
    } else if let Some(fields) = copied_fields_in_part_5(name) {
        fields
    } else {
        Vec::new()
    }
}

} // verus!
