//! Colours written in CSS hex notation, the form theme files store them in:
//! `#rgb`, `#rgba`, `#rrggbb` or `#rrggbbaa`, digits in either case.
use vstd::prelude::*;

use crate::canvas::Color;
use crate::chars::{is_white_space, push_char, trim, trim_end_seq, trim_seq, trim_start_seq};

verus! {

/// The value of a hexadecimal digit of either case.
pub open spec fn hex_digit_value(c: char) -> Option<u8> {
    if '0' <= c && c <= '9' {
        Some((c as u32 - '0' as u32) as u8)
    } else if 'a' <= c && c <= 'f' {
        Some((c as u32 - 'a' as u32 + 10) as u8)
    } else if 'A' <= c && c <= 'F' {
        Some((c as u32 - 'A' as u32 + 10) as u8)
    } else {
        None
    }
}

/// Is every character a hexadecimal digit?
pub open spec fn all_hex(s: Seq<char>) -> bool {
    forall|i: int| 0 <= i < s.len() ==> (#[trigger] hex_digit_value(s[i])) is Some
}

/// The digit at `i`, as a number.
pub open spec fn digit_at(s: Seq<char>, i: int) -> int {
    hex_digit_value(s[i])->0 as int
}

/// The byte written by the two digits at `i` and `i + 1`.
pub open spec fn pair_at(s: Seq<char>, i: int) -> u8 {
    (digit_at(s, i) * 16 + digit_at(s, i + 1)) as u8
}

/// The byte written by the single digit at `i`, which stands for itself
/// twice over (`#f80` is `#ff8800`).
pub open spec fn doubled_at(s: Seq<char>, i: int) -> u8 {
    (digit_at(s, i) * 17) as u8
}

/// The colour a hex notation writes, if it is one.
pub open spec fn hex_color_of(text: Seq<char>) -> Option<Color> {
    let d = text.drop_first();
    if text.len() == 0 || text[0] != '#' || !all_hex(d) {
        None
    } else if d.len() == 3 {
        Some(Color { r: doubled_at(d, 0), g: doubled_at(d, 1), b: doubled_at(d, 2), a: 255 })
    } else if d.len() == 4 {
        Some(
            Color {
                r: doubled_at(d, 0),
                g: doubled_at(d, 1),
                b: doubled_at(d, 2),
                a: doubled_at(d, 3),
            },
        )
    } else if d.len() == 6 {
        Some(Color { r: pair_at(d, 0), g: pair_at(d, 2), b: pair_at(d, 4), a: 255 })
    } else if d.len() == 8 {
        Some(Color { r: pair_at(d, 0), g: pair_at(d, 2), b: pair_at(d, 4), a: pair_at(d, 6) })
    } else {
        None
    }
}

/// A lower-case hexadecimal digit.
pub open spec fn lower_hex_digit(d: u8) -> char {
    if d < 10 {
        (('0' as u8) + d) as char
    } else {
        (('a' as u8) + d - 10) as char
    }
}

/// A byte as two lower-case digits.
pub open spec fn byte_hex(b: u8) -> Seq<char> {
    seq![lower_hex_digit(b / 16), lower_hex_digit(b % 16)]
}

/// `#rrggbb` for an opaque colour, `#rrggbbaa` for any other.
pub open spec fn color_hex_seq(c: Color) -> Seq<char> {
    seq!['#'] + byte_hex(c.r) + byte_hex(c.g) + byte_hex(c.b) + if c.a == 255 {
        Seq::<char>::empty()
    } else {
        byte_hex(c.a)
    }
}

fn hex_digit_of(c: char) -> (r: Option<u8>)
    ensures
        r == hex_digit_value(c),
{
    if '0' <= c && c <= '9' {
        Some((c as u32 - '0' as u32) as u8)
    } else if 'a' <= c && c <= 'f' {
        Some((c as u32 - 'a' as u32 + 10) as u8)
    } else if 'A' <= c && c <= 'F' {
        Some((c as u32 - 'A' as u32 + 10) as u8)
    } else {
        None
    }
}

/// Reads a colour in hex notation, ignoring white space around it.
pub fn parse_hex_color(text: &str) -> (r: Option<Color>)
    ensures
        r == hex_color_of(trim_seq(text@)),
{
    let trimmed = trim(text);
    let t = trimmed.as_str();
    let n = t.unicode_len();
    assert(t@ == trim_seq(text@));
    if n == 0 || t.get_char(0) != '#' {
        return None;
    }
    let ghost d = t@.drop_first();
    let mut digits: Vec<u8> = Vec::new();
    let mut i: usize = 1;
    while i < n
        invariant
            n == t@.len(),
            t@ == trim_seq(text@),
            t@.len() > 0 && t@[0] == '#',
            d == t@.drop_first(),
            1 <= i <= n,
            digits@.len() == i - 1,
            forall|k: int| 0 <= k < i - 1 ==> Some(#[trigger] digits@[k]) == hex_digit_value(d[k]),
        decreases n - i,
    {
        assert(t@[i as int] == d[i - 1]);
        match hex_digit_of(t.get_char(i)) {
            Some(v) => {
                digits.push(v);
            },
            None => {
                assert(hex_digit_value(d[i - 1]) is None);
                assert(!all_hex(d));
                assert(hex_color_of(t@) is None);
                return None;
            },
        }
        i = i + 1;
    }
    assert forall|k: int| 0 <= k < d.len() implies (#[trigger] hex_digit_value(d[k])) is Some by {
        assert(Some(digits@[k]) == hex_digit_value(d[k]));
    }
    let len = digits.len();
    if len == 3 || len == 4 {
        let a = if len == 4 {
            digits[3] * 17
        } else {
            255
        };
        assert(digit_at(d, 0) == digits@[0]);
        assert(digit_at(d, 1) == digits@[1]);
        assert(digit_at(d, 2) == digits@[2]);
        if len == 4 {
            assert(digit_at(d, 3) == digits@[3]);
        }
        Some(Color { r: digits[0] * 17, g: digits[1] * 17, b: digits[2] * 17, a })
    } else if len == 6 || len == 8 {
        let a = if len == 8 {
            digits[6] * 16 + digits[7]
        } else {
            255
        };
        assert forall|k: int| 0 <= k < len implies digit_at(d, k) == digits@[k] by {}
        Some(
            Color {
                r: digits[0] * 16 + digits[1],
                g: digits[2] * 16 + digits[3],
                b: digits[4] * 16 + digits[5],
                a,
            },
        )
    } else {
        None
    }
}

fn lower_hex_char(d: u8) -> (c: char)
    requires
        d < 16,
    ensures
        c == lower_hex_digit(d),
{
    if d < 10 {
        (('0' as u8) + d) as char
    } else {
        (('a' as u8) + d - 10) as char
    }
}

fn push_byte_hex(out: &mut String, b: u8)
    ensures
        final(out)@ == old(out)@ + byte_hex(b),
{
    push_char(out, lower_hex_char(b / 16));
    push_char(out, lower_hex_char(b % 16));
}

/// Writes a colour in hex notation: `#rrggbb` when it is opaque, else
/// `#rrggbbaa`, in lower case.
pub fn color_hex(c: Color) -> (r: String)
    ensures
        r@ == color_hex_seq(c),
{
    let mut out = String::new();
    push_char(&mut out, '#');
    push_byte_hex(&mut out, c.r);
    push_byte_hex(&mut out, c.g);
    push_byte_hex(&mut out, c.b);
    if c.a != 255 {
        push_byte_hex(&mut out, c.a);
    }
    out
}

proof fn lemma_lower_hex_digit_reads_back(d: u8)
    requires
        d < 16,
    ensures
        hex_digit_value(lower_hex_digit(d)) == Some(d),
{
}

/// Writing a colour in hex and reading it back gives the colour.
pub proof fn lemma_color_hex_reads_back(c: Color)
    ensures
        hex_color_of(trim_seq(color_hex_seq(c))) == Some(c),
{
    let s = color_hex_seq(c);
    let d = s.drop_first();
    assert(!is_white_space(s[0]));
    assert(trim_start_seq(s) == s);
    assert(!is_white_space(s.last())) by {
        let b = if c.a == 255 {
            c.b
        } else {
            c.a
        };
        assert(s.last() == lower_hex_digit(b % 16));
    }
    assert(trim_end_seq(s) == s);
    let bytes = if c.a == 255 {
        seq![c.r, c.g, c.b]
    } else {
        seq![c.r, c.g, c.b, c.a]
    };
    assert forall|k: int| 0 <= k < bytes.len() implies {
        &&& d[2 * k] == lower_hex_digit(bytes[k] / 16)
        &&& d[2 * k + 1] == lower_hex_digit(bytes[k] % 16)
    } by {}
    assert forall|i: int| 0 <= i < d.len() implies (#[trigger] hex_digit_value(d[i])) is Some by {
        let k = i / 2;
        if i % 2 == 0 {
            lemma_lower_hex_digit_reads_back(bytes[k] / 16);
            assert(i == 2 * k);
        } else {
            lemma_lower_hex_digit_reads_back(bytes[k] % 16);
            assert(i == 2 * k + 1);
        }
    }
    assert forall|k: int| 0 <= k < bytes.len() implies pair_at(d, 2 * k) == bytes[k] by {
        lemma_lower_hex_digit_reads_back(bytes[k] / 16);
        lemma_lower_hex_digit_reads_back(bytes[k] % 16);
    }
    assert(pair_at(d, 0) == c.r);
    assert(pair_at(d, 2) == c.g);
    assert(pair_at(d, 4) == c.b);
    if c.a != 255 {
        assert(pair_at(d, 6) == c.a);
    }
}

} // verus!
