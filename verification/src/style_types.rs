//! The keyword-valued part of the computed style model, the per-edge and
//! per-corner containers, and which properties inherit.
use vstd::prelude::*;

use crate::chars::str_equal;

verus! {

/// Four edge values.
#[derive(Clone, Copy, Debug, PartialEq)]
pub struct Sides<T> {
    pub top: T,
    pub right: T,
    pub bottom: T,
    pub left: T,
}

impl<T: Copy> Sides<T> {
    pub fn all(value: T) -> (r: Self)
        ensures
            r.top == value,
            r.right == value,
            r.bottom == value,
            r.left == value,
    {
        Sides { top: value, right: value, bottom: value, left: value }
    }

    /// Applies `f` to each edge, top, right, bottom, left.
    pub fn map<U: Copy, F: Fn(T) -> U>(self, f: F) -> (r: Sides<U>)
        requires
            f.requires((self.top,)),
            f.requires((self.right,)),
            f.requires((self.bottom,)),
            f.requires((self.left,)),
        ensures
            f.ensures((self.top,), r.top),
            f.ensures((self.right,), r.right),
            f.ensures((self.bottom,), r.bottom),
            f.ensures((self.left,), r.left),
    {
        Sides { top: f(self.top), right: f(self.right), bottom: f(self.bottom), left: f(self.left) }
    }
}

/// Four corner values, clockwise from the top-left.
#[derive(Clone, Copy, Debug, PartialEq)]
pub struct Corners<T> {
    pub top_left: T,
    pub top_right: T,
    pub bottom_right: T,
    pub bottom_left: T,
}

impl<T: Copy> Corners<T> {
    pub fn all(value: T) -> (r: Self)
        ensures
            r.top_left == value,
            r.top_right == value,
            r.bottom_right == value,
            r.bottom_left == value,
    {
        Corners { top_left: value, top_right: value, bottom_right: value, bottom_left: value }
    }

    /// Applies `f` to each corner, clockwise from the top-left.
    pub fn map<U: Copy, F: Fn(T) -> U>(self, f: F) -> (r: Corners<U>)
        requires
            f.requires((self.top_left,)),
            f.requires((self.top_right,)),
            f.requires((self.bottom_right,)),
            f.requires((self.bottom_left,)),
        ensures
            f.ensures((self.top_left,), r.top_left),
            f.ensures((self.top_right,), r.top_right),
            f.ensures((self.bottom_right,), r.bottom_right),
            f.ensures((self.bottom_left,), r.bottom_left),
    {
        Corners {
            top_left: f(self.top_left),
            top_right: f(self.top_right),
            bottom_right: f(self.bottom_right),
            bottom_left: f(self.bottom_left),
        }
    }
}

/// The edges that the 1-to-4 value shorthand (`margin`, `padding`,
/// `border-width`, ...) gives to the values that parsed: one value for all,
/// two for vertical and horizontal, three for top, horizontal and bottom,
/// four or more for top, right, bottom and left.
pub open spec fn sides_from<T>(parsed: Seq<T>) -> Option<Sides<T>> {
    if parsed.len() == 0 {
        None
    } else if parsed.len() == 1 {
        Some(Sides { top: parsed[0], right: parsed[0], bottom: parsed[0], left: parsed[0] })
    } else if parsed.len() == 2 {
        Some(Sides { top: parsed[0], right: parsed[1], bottom: parsed[0], left: parsed[1] })
    } else if parsed.len() == 3 {
        Some(Sides { top: parsed[0], right: parsed[1], bottom: parsed[2], left: parsed[1] })
    } else {
        Some(Sides { top: parsed[0], right: parsed[1], bottom: parsed[2], left: parsed[3] })
    }
}

/// Expands the 1-to-4 value edge shorthand over the values that parsed.
pub fn expand_sides<T: Copy>(parsed: &Vec<T>) -> (r: Option<Sides<T>>)
    ensures
        r == sides_from(parsed@),
{
    let n = parsed.len();
    if n == 0 {
        None
    } else if n == 1 {
        Some(Sides::all(parsed[0]))
    } else if n == 2 {
        Some(Sides { top: parsed[0], right: parsed[1], bottom: parsed[0], left: parsed[1] })
    } else if n == 3 {
        Some(Sides { top: parsed[0], right: parsed[1], bottom: parsed[2], left: parsed[1] })
    } else {
        Some(Sides { top: parsed[0], right: parsed[1], bottom: parsed[2], left: parsed[3] })
    }
}

/// The corners that the 1-to-4 value `border-radius` shorthand gives to the
/// values that parsed, clockwise from the top-left: one value for all, two
/// for the diagonals, three for top-left, the other diagonal and
/// bottom-right, four or more for each corner.
pub open spec fn corners_from<T>(parsed: Seq<T>) -> Option<Corners<T>> {
    if parsed.len() == 0 {
        None
    } else if parsed.len() == 1 {
        Some(Corners { top_left: parsed[0], top_right: parsed[0], bottom_right: parsed[0], bottom_left: parsed[0] })
    } else if parsed.len() == 2 {
        Some(Corners { top_left: parsed[0], top_right: parsed[1], bottom_right: parsed[0], bottom_left: parsed[1] })
    } else if parsed.len() == 3 {
        Some(Corners { top_left: parsed[0], top_right: parsed[1], bottom_right: parsed[2], bottom_left: parsed[1] })
    } else {
        Some(Corners { top_left: parsed[0], top_right: parsed[1], bottom_right: parsed[2], bottom_left: parsed[3] })
    }
}

/// Expands the 1-to-4 value corner shorthand over the values that parsed
/// (the horizontal radii, before any `/`).
pub fn expand_corners<T: Copy>(parsed: &Vec<T>) -> (r: Option<Corners<T>>)
    ensures
        r == corners_from(parsed@),
{
    let n = parsed.len();
    if n == 0 {
        None
    } else if n == 1 {
        Some(Corners::all(parsed[0]))
    } else if n == 2 {
        Some(Corners { top_left: parsed[0], top_right: parsed[1], bottom_right: parsed[0], bottom_left: parsed[1] })
    } else if n == 3 {
        Some(Corners { top_left: parsed[0], top_right: parsed[1], bottom_right: parsed[2], bottom_left: parsed[1] })
    } else {
        Some(Corners { top_left: parsed[0], top_right: parsed[1], bottom_right: parsed[2], bottom_left: parsed[3] })
    }
}

#[derive(Clone, Copy, Debug, PartialEq, Eq, Structural)]
pub enum Display {
    KeywordNone,
    Block,
    Inline,
    InlineBlock,
    Flex,
    InlineFlex,
    Grid,
    ListItem,
    Table,
    TableRowGroup,
    TableRow,
    TableCell,
    TableCaption,
    /// The element generates no box but its children participate as if they
    /// were children of its parent.
    Contents,
}

impl Display {
    pub fn is_none(self) -> (r: bool)
        ensures
            r == (self == Display::KeywordNone),
    {
        self == Display::KeywordNone
    }

    /// Does this element take part in inline layout?
    pub fn is_inline_level(self) -> (r: bool)
        ensures
            r == (self is Inline || self is InlineBlock || self is InlineFlex),
    {
        match self {
            Display::Inline | Display::InlineBlock | Display::InlineFlex => true,
            _ => false,
        }
    }

    /// Does the element establish a block container for its children?
    pub fn is_block_container(self) -> (r: bool)
        ensures
            r == (self is Block || self is InlineBlock || self is ListItem || self is Table
                || self is TableRowGroup || self is TableCell || self is TableCaption),
    {
        match self {
            Display::Block
            | Display::InlineBlock
            | Display::ListItem
            | Display::Table
            | Display::TableRowGroup
            | Display::TableCell
            | Display::TableCaption => true,
            _ => false,
        }
    }

    /// Does the element lay its children out as a flex container? Table rows
    /// do too.
    pub fn is_flex_container(self) -> (r: bool)
        ensures
            r == (self is Flex || self is InlineFlex || self is TableRow),
    {
        match self {
            Display::Flex | Display::InlineFlex | Display::TableRow => true,
            _ => false,
        }
    }
}

#[derive(Clone, Copy, Debug, PartialEq, Eq, Structural)]
pub enum Position {
    Static,
    Relative,
    Absolute,
    Fixed,
    Sticky,
}

impl Position {
    /// Is the box taken out of normal flow?
    pub fn is_out_of_flow(self) -> (r: bool)
        ensures
            r == (self is Absolute || self is Fixed),
    {
        match self {
            Position::Absolute | Position::Fixed => true,
            _ => false,
        }
    }

    /// Does the box establish a containing block for absolute descendants?
    pub fn is_positioned(self) -> (r: bool)
        ensures
            r == (self != Position::Static),
    {
        self != Position::Static
    }
}

#[derive(Clone, Copy, Debug, PartialEq, Eq, Structural)]
pub enum Float {
    KeywordNone,
    Left,
    Right,
}

#[derive(Clone, Copy, Debug, PartialEq, Eq, Structural)]
pub enum Clear {
    KeywordNone,
    Left,
    Right,
    Both,
}

#[derive(Clone, Copy, Debug, PartialEq, Eq, Structural)]
pub enum BoxSizing {
    ContentBox,
    BorderBox,
}

#[derive(Clone, Copy, Debug, PartialEq, Eq, Structural)]
pub enum Overflow {
    Visible,
    Hidden,
    Scroll,
    Auto,
    Clip,
}

impl Overflow {
    /// Should content be clipped to the padding box?
    pub fn clips(self) -> (r: bool)
        ensures
            r == !(self is Visible),
    {
        match self {
            Overflow::Visible => false,
            _ => true,
        }
    }

    pub fn scrollable(self) -> (r: bool)
        ensures
            r == (self is Scroll || self is Auto),
    {
        match self {
            Overflow::Scroll | Overflow::Auto => true,
            _ => false,
        }
    }
}

#[derive(Clone, Copy, Debug, PartialEq, Eq, Structural)]
pub enum Visibility {
    Visible,
    Hidden,
}

#[derive(Clone, Copy, Debug, PartialEq, Eq, Structural)]
pub enum BorderStyle {
    KeywordNone,
    Hidden,
    Solid,
    Dashed,
    Dotted,
    Double,
    Groove,
    Ridge,
    Inset,
    Outset,
}

impl BorderStyle {
    pub fn is_visible(self) -> (r: bool)
        ensures
            r == !(self is KeywordNone || self is Hidden),
    {
        match self {
            BorderStyle::KeywordNone | BorderStyle::Hidden => false,
            _ => true,
        }
    }
}

#[derive(Clone, Copy, Debug, PartialEq, Eq, Structural)]
pub enum FontStyle {
    Normal,
    Italic,
    Oblique,
}

#[derive(Clone, Copy, Debug, PartialEq, Eq, Structural)]
pub enum TextAlign {
    Start,
    End,
    Left,
    Right,
    Center,
    Justify,
}

#[derive(Clone, Copy, Debug, PartialEq, Eq, Structural)]
pub enum TextTransform {
    KeywordNone,
    Uppercase,
    Lowercase,
    Capitalize,
}

#[derive(Clone, Copy, Debug, PartialEq, Eq, Structural)]
pub struct TextDecoration {
    pub underline: bool,
    pub overline: bool,
    pub line_through: bool,
}

impl Default for TextDecoration {
    fn default() -> (r: TextDecoration)
        ensures
            !r.underline,
            !r.overline,
            !r.line_through,
    {
        TextDecoration { underline: false, overline: false, line_through: false }
    }
}

impl TextDecoration {
    pub fn any(self) -> (r: bool)
        ensures
            r == (self.underline || self.overline || self.line_through),
    {
        self.underline || self.overline || self.line_through
    }
}

#[derive(Clone, Copy, Debug, PartialEq, Eq, Structural)]
pub enum WhiteSpace {
    Normal,
    Nowrap,
    Pre,
    PreWrap,
    PreLine,
}

impl WhiteSpace {
    /// Are newlines and runs of spaces preserved?
    pub fn preserves_spaces(self) -> (r: bool)
        ensures
            r == (self is Pre || self is PreWrap),
    {
        match self {
            WhiteSpace::Pre | WhiteSpace::PreWrap => true,
            _ => false,
        }
    }

    pub fn preserves_newlines(self) -> (r: bool)
        ensures
            r == (self is Pre || self is PreWrap || self is PreLine),
    {
        match self {
            WhiteSpace::Pre | WhiteSpace::PreWrap | WhiteSpace::PreLine => true,
            _ => false,
        }
    }

    pub fn wraps(self) -> (r: bool)
        ensures
            r == !(self is Nowrap || self is Pre),
    {
        match self {
            WhiteSpace::Nowrap | WhiteSpace::Pre => false,
            _ => true,
        }
    }
}

#[derive(Clone, Copy, Debug, PartialEq, Eq, Structural)]
pub enum VerticalAlign {
    Baseline,
    Top,
    Middle,
    Bottom,
    TextTop,
    TextBottom,
    Sub,
    Super,
}

#[derive(Clone, Copy, Debug, PartialEq, Eq, Structural)]
pub enum FlexDirection {
    Row,
    RowReverse,
    Column,
    ColumnReverse,
}

impl FlexDirection {
    pub fn is_row(self) -> (r: bool)
        ensures
            r == (self is Row || self is RowReverse),
    {
        match self {
            FlexDirection::Row | FlexDirection::RowReverse => true,
            _ => false,
        }
    }

    pub fn is_reverse(self) -> (r: bool)
        ensures
            r == (self is RowReverse || self is ColumnReverse),
    {
        match self {
            FlexDirection::RowReverse | FlexDirection::ColumnReverse => true,
            _ => false,
        }
    }
}

#[derive(Clone, Copy, Debug, PartialEq, Eq, Structural)]
pub enum FlexWrap {
    NoWrap,
    Wrap,
    WrapReverse,
}

#[derive(Clone, Copy, Debug, PartialEq, Eq, Structural)]
pub enum JustifyContent {
    Start,
    End,
    Center,
    SpaceBetween,
    SpaceAround,
    SpaceEvenly,
}

#[derive(Clone, Copy, Debug, PartialEq, Eq, Structural)]
pub enum AlignItems {
    Stretch,
    Start,
    End,
    Center,
    Baseline,
}

#[derive(Clone, Copy, Debug, PartialEq, Eq, Structural)]
pub enum AlignSelf {
    Auto,
    Stretch,
    Start,
    End,
    Center,
    Baseline,
}

#[derive(Clone, Copy, Debug, PartialEq, Eq, Structural)]
pub enum ListStyleType {
    KeywordNone,
    Disc,
    Circle,
    Square,
    Decimal,
    LowerAlpha,
    UpperAlpha,
    LowerRoman,
    UpperRoman,
}

#[derive(Clone, Copy, Debug, PartialEq, Eq, Structural)]
pub enum ListStylePosition {
    Outside,
    Inside,
}

#[derive(Clone, Copy, Debug, PartialEq, Eq, Structural)]
pub enum BackgroundSize {
    Auto,
    Cover,
    Contain,
}

#[derive(Clone, Copy, Debug, PartialEq, Eq, Structural)]
pub enum BackgroundRepeat {
    Repeat,
    NoRepeat,
    RepeatX,
    RepeatY,
}

#[derive(Clone, Copy, Debug, PartialEq, Eq, Structural)]
pub enum Cursor {
    Auto,
    Default,
    Pointer,
    Text,
    Move,
    NotAllowed,
    Grab,
}

/// The properties that inherit by default.
pub open spec fn inherited_property(name: Seq<char>) -> bool {
    ||| name == "color"@
    ||| name == "cursor"@
    ||| name == "font"@
    ||| name == "font-family"@
    ||| name == "font-size"@
    ||| name == "font-style"@
    ||| name == "font-weight"@
    ||| name == "letter-spacing"@
    ||| name == "line-height"@
    ||| name == "list-style"@
    ||| name == "list-style-position"@
    ||| name == "list-style-type"@
    ||| name == "text-align"@
    ||| name == "text-indent"@
    ||| name == "text-shadow"@
    ||| name == "text-transform"@
    ||| name == "visibility"@
    ||| name == "white-space"@
    ||| name == "word-spacing"@
}

/// Properties that inherit by default.
pub fn is_inherited(name: &str) -> (r: bool)
    ensures
        r == inherited_property(name@),
{
    str_equal(name, "color") || str_equal(name, "cursor") || str_equal(name, "font") || str_equal(
        name,
        "font-family",
    ) || str_equal(name, "font-size") || str_equal(name, "font-style") || str_equal(
        name,
        "font-weight",
    ) || str_equal(name, "letter-spacing") || str_equal(name, "line-height") || str_equal(
        name,
        "list-style",
    ) || str_equal(name, "list-style-position") || str_equal(name, "list-style-type")
        || str_equal(name, "text-align") || str_equal(name, "text-indent") || str_equal(
        name,
        "text-shadow",
    ) || str_equal(name, "text-transform") || str_equal(name, "visibility") || str_equal(
        name,
        "white-space",
    ) || str_equal(name, "word-spacing")
}

/// Overwrites `target` with the value, when there is one.
pub fn set_if<T>(target: &mut T, value: Option<T>)
    ensures
        match value {
            Some(v) => *final(target) == v,
            None => *final(target) == *old(target),
        },
{
    if let Some(value) = value {
        *target = value;
    }
}

/// The 1-to-4 value shorthands fill what is missing from its opposite: the
/// first value is the top, a missing right copies the top, a missing bottom
/// copies the top, and a missing left copies the right.
pub proof fn lemma_missing_sides_copy_their_opposites<T>(parsed: Seq<T>)
    ensures
        sides_from(parsed) is None <==> parsed.len() == 0,
        parsed.len() > 0 ==> ({
            let s = sides_from(parsed)->0;
            &&& s.top == parsed[0]
            &&& s.right == if parsed.len() >= 2 { parsed[1] } else { s.top }
            &&& s.bottom == if parsed.len() >= 3 { parsed[2] } else { s.top }
            &&& s.left == if parsed.len() >= 4 { parsed[3] } else { s.right }
        }),
        corners_from(parsed) is None <==> parsed.len() == 0,
        parsed.len() > 0 ==> ({
            let c = corners_from(parsed)->0;
            &&& c.top_left == parsed[0]
            &&& c.top_right == if parsed.len() >= 2 { parsed[1] } else { c.top_left }
            &&& c.bottom_right == if parsed.len() >= 3 { parsed[2] } else { c.top_left }
            &&& c.bottom_left == if parsed.len() >= 4 { parsed[3] } else { c.top_right }
        }),
{
}

/// The properties that inherit by default are the text and font ones,
/// `color`, `cursor`, `visibility` and the list-style ones; box, layout and
/// background properties do not.
pub proof fn lemma_inherited_properties(name: Seq<char>)
    ensures
        name == "color"@ ==> inherited_property(name),
        name == "cursor"@ ==> inherited_property(name),
        name == "font"@ ==> inherited_property(name),
        name == "font-family"@ ==> inherited_property(name),
        name == "font-size"@ ==> inherited_property(name),
        name == "font-style"@ ==> inherited_property(name),
        name == "font-weight"@ ==> inherited_property(name),
        name == "letter-spacing"@ ==> inherited_property(name),
        name == "line-height"@ ==> inherited_property(name),
        name == "list-style"@ ==> inherited_property(name),
        name == "list-style-position"@ ==> inherited_property(name),
        name == "list-style-type"@ ==> inherited_property(name),
        name == "text-align"@ ==> inherited_property(name),
        name == "text-indent"@ ==> inherited_property(name),
        name == "text-shadow"@ ==> inherited_property(name),
        name == "text-transform"@ ==> inherited_property(name),
        name == "visibility"@ ==> inherited_property(name),
        name == "white-space"@ ==> inherited_property(name),
        name == "word-spacing"@ ==> inherited_property(name),
        name == "display"@ ==> !inherited_property(name),
        name == "margin"@ ==> !inherited_property(name),
        name == "padding"@ ==> !inherited_property(name),
        name == "width"@ ==> !inherited_property(name),
        name == "height"@ ==> !inherited_property(name),
        name == "background-color"@ ==> !inherited_property(name),
        name == "border"@ ==> !inherited_property(name),
        name == "position"@ ==> !inherited_property(name),
        name == "opacity"@ ==> !inherited_property(name),
        name == "overflow"@ ==> !inherited_property(name),
{
    reveal_strlit("color");
    reveal_strlit("cursor");
    reveal_strlit("font");
    reveal_strlit("font-family");
    reveal_strlit("font-size");
    reveal_strlit("font-style");
    reveal_strlit("font-weight");
    reveal_strlit("letter-spacing");
    reveal_strlit("line-height");
    reveal_strlit("list-style");
    reveal_strlit("list-style-position");
    reveal_strlit("list-style-type");
    reveal_strlit("text-align");
    reveal_strlit("text-indent");
    reveal_strlit("text-shadow");
    reveal_strlit("text-transform");
    reveal_strlit("visibility");
    reveal_strlit("white-space");
    reveal_strlit("word-spacing");
    reveal_strlit("display");
    reveal_strlit("margin");
    reveal_strlit("padding");
    reveal_strlit("width");
    reveal_strlit("height");
    reveal_strlit("background-color");
    reveal_strlit("border");
    reveal_strlit("position");
    reveal_strlit("opacity");
    reveal_strlit("overflow");
    assert("color"@.len() == 5);
    assert("cursor"@.len() == 6);
    assert("font"@.len() == 4);
    assert("font-family"@.len() == 11);
    assert("font-size"@.len() == 9);
    assert("font-style"@.len() == 10);
    assert("font-weight"@.len() == 11);
    assert("letter-spacing"@.len() == 14);
    assert("line-height"@.len() == 11);
    assert("list-style"@.len() == 10);
    assert("list-style-position"@.len() == 19);
    assert("list-style-type"@.len() == 15);
    assert("text-align"@.len() == 10);
    assert("text-indent"@.len() == 11);
    assert("text-shadow"@.len() == 11);
    assert("text-transform"@.len() == 14);
    assert("visibility"@.len() == 10);
    assert("white-space"@.len() == 11);
    assert("word-spacing"@.len() == 12);
    assert("display"@.len() == 7);
    assert("margin"@.len() == 6);
    assert("padding"@.len() == 7);
    assert("width"@.len() == 5);
    assert("height"@.len() == 6);
    assert("background-color"@.len() == 16);
    assert("border"@.len() == 6);
    assert("position"@.len() == 8);
    assert("opacity"@.len() == 7);
    assert("overflow"@.len() == 8);
    assert("margin"@[0] != "cursor"@[0]);
    assert("width"@[0] != "color"@[0]);
    assert("height"@[0] != "cursor"@[0]);
    assert("border"@[0] != "cursor"@[0]);
}

} // verus!
