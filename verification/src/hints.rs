//! Presentational attributes: the old HTML attributes (`width`, `bgcolor`,
//! `align`, ...) that style an element as if an author had written the CSS.
//! They cascade as the lowest-priority user-agent declarations.
use vstd::prelude::*;

use crate::chars::{lower_seq, lowercase, str_equal, trim, trim_seq};
use crate::location::{all_digits, is_all_digits};

verus! {

/// The presentational attributes an element carries.
#[derive(Clone, Debug, PartialEq, Eq)]
pub struct PresentationalAttributes {
    pub width: Option<String>,
    pub height: Option<String>,
    pub bgcolor: Option<String>,
    pub color: Option<String>,
    pub align: Option<String>,
    pub border: Option<String>,
    pub cellpadding: Option<String>,
    /// `<td nowrap>`.
    pub nowrap: bool,
}

pub open spec fn opt_view(s: Option<String>) -> Option<Seq<char>> {
    match s {
        Some(s) => Some(s@),
        None => None,
    }
}

/// The declaration a `width` or `height` attribute gives: a bare number
/// means pixels, a percentage stays a percentage, anything else nothing.
pub open spec fn dimension_css(property: Seq<char>, raw: Seq<char>) -> Seq<char> {
    let t = trim_seq(raw);
    if t.len() == 0 {
        Seq::empty()
    } else if t.last() == '%' {
        property + ":"@ + t + ";"@
    } else if all_digits(t) {
        property + ":"@ + t + "px;"@
    } else {
        Seq::empty()
    }
}

pub open spec fn optional_dimension_css(property: Seq<char>, raw: Option<Seq<char>>) -> Seq<char> {
    match raw {
        Some(raw) => dimension_css(property, raw),
        None => Seq::empty(),
    }
}

/// The elements whose `width` and `height` attributes size them.
pub open spec fn is_sized_element(tag: Seq<char>) -> bool {
    tag == "img"@ || tag == "canvas"@ || tag == "video"@ || tag == "iframe"@ || tag == "embed"@
        || tag == "object"@ || tag == "table"@ || tag == "td"@ || tag == "th"@ || tag == "col"@
        || tag == "colgroup"@
}

pub open spec fn size_css(tag: Seq<char>, width: Option<Seq<char>>, height: Option<Seq<char>>) -> Seq<char> {
    if is_sized_element(tag) {
        optional_dimension_css("width"@, width) + optional_dimension_css("height"@, height)
    } else if tag == "hr"@ {
        optional_dimension_css("width"@, width)
    } else {
        Seq::empty()
    }
}

pub open spec fn colour_css(property: Seq<char>, value: Option<Seq<char>>) -> Seq<char> {
    match value {
        Some(v) => property + ":"@ + v + ";"@,
        None => Seq::empty(),
    }
}

/// What `align` asks for: a centred table is centred by its margins, any
/// other recognised value aligns the text.
pub open spec fn align_css(tag: Seq<char>, align: Option<Seq<char>>) -> Seq<char> {
    match align {
        Some(a) => {
            let a = lower_seq(trim_seq(a));
            if a == "center"@ && tag == "table"@ {
                "margin-left:auto;margin-right:auto;"@
            } else if a == "left"@ || a == "right"@ || a == "center"@ || a == "justify"@ {
                "text-align:"@ + a + ";"@
            } else {
                Seq::empty()
            }
        },
        None => Seq::empty(),
    }
}

/// A table's `border` (anything but empty or `0` draws the default border)
/// and `cellpadding` (a bare number, passed on to its cells).
pub open spec fn table_css(tag: Seq<char>, border: Option<Seq<char>>, cellpadding: Option<Seq<char>>) -> Seq<char> {
    if tag == "table"@ {
        (match border {
            Some(b) => if trim_seq(b) != "0"@ && trim_seq(b).len() != 0 {
                "border:1px solid #c9ccd1;"@
            } else {
                Seq::empty()
            },
            None => Seq::empty(),
        }) + (match cellpadding {
            Some(p) => if all_digits(p) && p.len() != 0 {
                "--wat-cellpadding:"@ + p + "px;"@
            } else {
                Seq::empty()
            },
            None => Seq::empty(),
        })
    } else {
        Seq::empty()
    }
}

/// The CSS the presentational attributes of a `tag` element stand for, in
/// the order: size, background colour, colour, alignment, table border and
/// padding, `nowrap`.
pub open spec fn hints_css(tag: Seq<char>, a: PresentationalAttributes) -> Seq<char> {
    size_css(tag, opt_view(a.width), opt_view(a.height)) + colour_css("background-color"@, opt_view(a.bgcolor))
        + colour_css("color"@, opt_view(a.color)) + align_css(tag, opt_view(a.align)) + table_css(
        tag,
        opt_view(a.border),
        opt_view(a.cellpadding),
    ) + if a.nowrap {
        "white-space:nowrap;"@
    } else {
        Seq::empty()
    }
}

fn push_dimension(css: &mut String, property: &str, raw: &Option<String>)
    ensures
        final(css)@ == old(css)@ + optional_dimension_css(property@, opt_view(*raw)),
{
    if let Some(raw) = raw {
        let trimmed = trim(raw.as_str());
        let t = trimmed.as_str();
        let n = t.unicode_len();
        if n == 0 {
            assert(css@ =~= old(css)@ + Seq::<char>::empty());
        } else if t.get_char(n - 1) == '%' {
            css.append(property);
            css.append(":");
            css.append(t);
            css.append(";");
            assert(css@ =~= old(css)@ + (property@ + ":"@ + t@ + ";"@));
        } else if is_all_digits(t) {
            css.append(property);
            css.append(":");
            css.append(t);
            css.append("px;");
            assert(css@ =~= old(css)@ + (property@ + ":"@ + t@ + "px;"@));
        } else {
            assert(css@ =~= old(css)@ + Seq::<char>::empty());
        }
    } else {
        assert(css@ =~= old(css)@ + Seq::<char>::empty());
    }
}

fn push_colour(css: &mut String, property: &str, value: &Option<String>)
    ensures
        final(css)@ == old(css)@ + colour_css(property@, opt_view(*value)),
{
    if let Some(v) = value {
        css.append(property);
        css.append(":");
        css.append(v.as_str());
        css.append(";");
        assert(css@ =~= old(css)@ + (property@ + ":"@ + v@ + ";"@));
    } else {
        assert(css@ =~= old(css)@ + Seq::<char>::empty());
    }
}

/// The CSS text that the presentational attributes of a `tag` element stand
/// for; empty when they ask for nothing.
pub fn presentational_css(tag: &str, attributes: &PresentationalAttributes) -> (r: String)
    ensures
        r@ == hints_css(tag@, *attributes),
{
    let mut css = String::new();
    let sized = str_equal(tag, "img") || str_equal(tag, "canvas") || str_equal(tag, "video")
        || str_equal(tag, "iframe") || str_equal(tag, "embed") || str_equal(tag, "object")
        || str_equal(tag, "table") || str_equal(tag, "td") || str_equal(tag, "th") || str_equal(
        tag,
        "col",
    ) || str_equal(tag, "colgroup");
    if sized {
        push_dimension(&mut css, "width", &attributes.width);
        push_dimension(&mut css, "height", &attributes.height);
    } else if str_equal(tag, "hr") {
        push_dimension(&mut css, "width", &attributes.width);
    }
    let ghost after_size = css@;
    assert(after_size =~= size_css(tag@, opt_view(attributes.width), opt_view(attributes.height)));
    push_colour(&mut css, "background-color", &attributes.bgcolor);
    push_colour(&mut css, "color", &attributes.color);
    let ghost after_colour = css@;
    if let Some(align) = &attributes.align {
        let trimmed = trim(align.as_str());
        let lower = lowercase(trimmed.as_str());
        let a = lower.as_str();
        if str_equal(a, "center") && str_equal(tag, "table") {
            css.append("margin-left:auto;margin-right:auto;");
        } else if str_equal(a, "left") || str_equal(a, "right") || str_equal(a, "center") || str_equal(
            a,
            "justify",
        ) {
            css.append("text-align:");
            css.append(a);
            css.append(";");
            assert(css@ =~= after_colour + ("text-align:"@ + a@ + ";"@));
        }
    }
    assert(css@ =~= after_colour + align_css(tag@, opt_view(attributes.align)));
    let ghost after_align = css@;
    if str_equal(tag, "table") {
        if let Some(border) = &attributes.border {
            let trimmed = trim(border.as_str());
            let b = trimmed.as_str();
            if !str_equal(b, "0") && b.unicode_len() != 0 {
                css.append("border:1px solid #c9ccd1;");
            }
        }
        let ghost after_border = css@;
        if let Some(padding) = &attributes.cellpadding {
            let p = padding.as_str();
            if is_all_digits(p) && p.unicode_len() != 0 {
                css.append("--wat-cellpadding:");
                css.append(p);
                css.append("px;");
                assert(css@ =~= after_border + ("--wat-cellpadding:"@ + p@ + "px;"@));
            }
        }
    }
    assert(css@ =~= after_align + table_css(tag@, opt_view(attributes.border), opt_view(attributes.cellpadding)));
    let ghost after_table = css@;
    if attributes.nowrap {
        css.append("white-space:nowrap;");
    }
    assert(css@ =~= after_table + if attributes.nowrap {
        "white-space:nowrap;"@
    } else {
        Seq::<char>::empty()
    });
    css
}

/// The CSS `align` adds: for any element but a centred table, an `align`
/// of `left`, `right`, `center` or `justify` (trimmed, in any ASCII case)
/// adds exactly `text-align:<value>;` to what the other attributes give,
/// after their size and colours and before the table and `nowrap` hints.
pub proof fn lemma_align_adds_text_align(tag: Seq<char>, a: PresentationalAttributes, raw: String)
    requires
        a.align == Some(raw),
        ({
            let v = lower_seq(trim_seq(raw@));
            v == "left"@ || v == "right"@ || v == "center"@ || v == "justify"@
        }),
        !(lower_seq(trim_seq(raw@)) == "center"@ && tag == "table"@),
    ensures
        ({
            let base = hints_css(tag, PresentationalAttributes { align: None, ..a });
            let added = "text-align:"@ + lower_seq(trim_seq(raw@)) + ";"@;
            exists|n: int|
                0 <= n <= base.len() && #[trigger] hints_css(tag, a) == base.take(n) + added + base.skip(n)
        }),
{
    reveal_strlit("left");
    reveal_strlit("right");
    reveal_strlit("center");
    reveal_strlit("justify");
    let b = PresentationalAttributes { align: None, ..a };
    let base = hints_css(tag, b);
    let v = lower_seq(trim_seq(raw@));
    let added = "text-align:"@ + v + ";"@;
    let front = size_css(tag, opt_view(a.width), opt_view(a.height)) + colour_css(
        "background-color"@,
        opt_view(a.bgcolor),
    ) + colour_css("color"@, opt_view(a.color));
    let back = table_css(tag, opt_view(a.border), opt_view(a.cellpadding)) + if a.nowrap {
        "white-space:nowrap;"@
    } else {
        Seq::empty()
    };
    assert(align_css(tag, opt_view(a.align)) == added);
    assert(align_css(tag, opt_view(b.align)) == Seq::<char>::empty());
    assert(hints_css(tag, a) =~= front + added + back);
    assert(base =~= front + back);
    let n = front.len() as int;
    assert(base.take(n) =~= front);
    assert(base.skip(n) =~= back);
    assert(hints_css(tag, a) == base.take(n) + added + base.skip(n));
}

/// No presentational attribute at all.
pub open spec fn no_attributes() -> PresentationalAttributes {
    PresentationalAttributes {
        width: None,
        height: None,
        bgcolor: None,
        color: None,
        align: None,
        border: None,
        cellpadding: None,
        nowrap: false,
    }
}

/// Each attribute alone, on any element, stands for its one declaration:
/// `bgcolor` for `background-color`, `color` for `color`, `nowrap` for
/// `white-space:nowrap`; `width` on an image, a table, a cell or another
/// sized element (or on a rule) for a width in pixels when it is a bare
/// number and as written when it is a percentage; a table's non-zero
/// `border` for the default border. No attribute stands for nothing.
pub proof fn lemma_single_attribute_hints(tag: Seq<char>, value: String)
    ensures
        hints_css(tag, no_attributes()) == Seq::<char>::empty(),
        hints_css(tag, PresentationalAttributes { bgcolor: Some(value), ..no_attributes() })
            == "background-color:"@ + value@ + ";"@,
        hints_css(tag, PresentationalAttributes { color: Some(value), ..no_attributes() }) == "color:"@
            + value@ + ";"@,
        hints_css(tag, PresentationalAttributes { nowrap: true, ..no_attributes() })
            == "white-space:nowrap;"@,
        ({
            let t = trim_seq(value@);
            (is_sized_element(tag) || tag == "hr"@) && t.len() > 0 && all_digits(t) ==> hints_css(
                tag,
                PresentationalAttributes { width: Some(value), ..no_attributes() },
            ) == "width:"@ + t + "px;"@
        }),
        ({
            let t = trim_seq(value@);
            (is_sized_element(tag) || tag == "hr"@) && t.len() > 0 && t.last() == '%' ==> hints_css(
                tag,
                PresentationalAttributes { width: Some(value), ..no_attributes() },
            ) == "width:"@ + t + ";"@
        }),
        tag == "table"@ && trim_seq(value@).len() > 0 && trim_seq(value@) != "0"@ ==> hints_css(
            tag,
            PresentationalAttributes { border: Some(value), ..no_attributes() },
        ) == "border:1px solid #c9ccd1;"@,
{
    let e = Seq::<char>::empty();
    assert(e + e =~= e);
    assert(e + e + e + e + e + e =~= e);
    assert(size_css(tag, None, None) =~= e);
    assert(table_css(tag, None, None) =~= e);
    assert(align_css(tag, None) =~= e);
    reveal_strlit("background-color");
    reveal_strlit("background-color:");
    reveal_strlit("color");
    reveal_strlit("color:");
    reveal_strlit(":");
    assert("background-color"@ + ":"@ =~= "background-color:"@);
    assert("color"@ + ":"@ =~= "color:"@);
    let bg = "background-color:"@ + value@ + ";"@;
    assert("background-color"@ + ":"@ + value@ + ";"@ =~= bg);
    assert("color"@ + ":"@ + value@ + ";"@ =~= "color:"@ + value@ + ";"@);
    assert(e + bg + e + e + e + e =~= bg);
    let c = "color:"@ + value@ + ";"@;
    assert(e + e + c + e + e + e =~= c);
    let n = "white-space:nowrap;"@;
    assert(e + e + e + e + e + n =~= n);
    let t = trim_seq(value@);
    reveal_strlit("width");
    reveal_strlit("width:");
    assert("width"@ + ":"@ + t + "px;"@ =~= "width:"@ + t + "px;"@);
    assert("width"@ + ":"@ + t + ";"@ =~= "width:"@ + t + ";"@);
    if t.len() > 0 && all_digits(t) {
        assert(crate::chars::is_ascii_digit(t[t.len() - 1]));
        assert(t.last() != '%');
    }
    let w1 = "width:"@ + t + "px;"@;
    let w2 = "width:"@ + t + ";"@;
    assert(w1 + e =~= w1);
    assert(w2 + e =~= w2);
    assert(w1 + e + e + e + e + e =~= w1);
    assert(w2 + e + e + e + e + e =~= w2);
    if t.len() > 0 && t.last() == '%' {
        reveal_strlit("%");
    }
    let b = "border:1px solid #c9ccd1;"@;
    assert(b + e =~= b);
    assert(e + e + e + e + (b + e) + e =~= b);
}

} // verus!
