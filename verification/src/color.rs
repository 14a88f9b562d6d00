//! The color value type and its textual `#rrggbb` codec.

use vstd::prelude::*;

verus! {

/// An RGB color: three independent 8-bit channels, no alpha.
///
/// The textual form is `#rrggbb`: a `#` followed by exactly six hex digits,
/// always emitted in lowercase, accepted in either case.
#[derive(Clone, Copy, PartialEq, Eq, Structural, Debug)]
pub struct Color {
    pub red: u8,
    pub green: u8,
    pub blue: u8,
}

/// Why parsing a color from text failed.
#[derive(Clone, Copy, PartialEq, Eq, Structural, Debug)]
pub enum ColorErrorKind {
    /// The text is not the 7-character `#rrggbb` shape.
    BadFormat,
    /// The shape is right but a character after `#` is not a hex digit.
    ParseError,
}

/// The error produced when parsing a color from text fails.
#[derive(Clone, Copy, PartialEq, Eq, Structural, Debug)]
pub struct ColorError {
    pub kind: ColorErrorKind,
}

/// Black: every channel zero. What `Off` and degenerate patterns render.
pub open spec fn black() -> Color {
    Color { red: 0, green: 0, blue: 0 }
}

/// The `BadFormat` parse error.
pub open spec fn bad_format() -> ColorError {
    ColorError { kind: ColorErrorKind::BadFormat }
}

/// The `ParseError` parse error.
pub open spec fn parse_error() -> ColorError {
    ColorError { kind: ColorErrorKind::ParseError }
}

/// Is `c` a hex digit, in either case?
pub open spec fn is_hex_digit(c: char) -> bool {
    let u = c as u32;
    (48 <= u && u <= 57) || (97 <= u && u <= 102) || (65 <= u && u <= 70)
}

/// Numeric value of the hex digit `c` (either case).
pub open spec fn hex_digit_value(c: char) -> int {
    let u = c as u32;
    if 48 <= u && u <= 57 {
        u - 48
    } else if 97 <= u && u <= 102 {
        u - 87
    } else {
        u - 55
    }
}

/// The lowercase hex digit for a value in `[0, 16)`.
pub open spec fn hex_digit_char(v: int) -> char {
    if v == 0 { '0' }
    else if v == 1 { '1' }
    else if v == 2 { '2' }
    else if v == 3 { '3' }
    else if v == 4 { '4' }
    else if v == 5 { '5' }
    else if v == 6 { '6' }
    else if v == 7 { '7' }
    else if v == 8 { '8' }
    else if v == 9 { '9' }
    else if v == 10 { 'a' }
    else if v == 11 { 'b' }
    else if v == 12 { 'c' }
    else if v == 13 { 'd' }
    else if v == 14 { 'e' }
    else { 'f' }
}

/// ASCII lowercasing of a single character.
pub open spec fn lower_char(c: char) -> char {
    let u = c as u32;
    if 65 <= u && u <= 90 {
        (u + 32) as char
    } else {
        c
    }
}

/// Character-wise ASCII lowercasing.
pub open spec fn lower_text(s: Seq<char>) -> Seq<char> {
    Seq::new(s.len(), |i: int| lower_char(s[i]))
}

/// The texts that `Color::from_str` accepts: `#` and six hex digits.
pub open spec fn valid_color_text(s: Seq<char>) -> bool {
    &&& s.len() == 7
    &&& s[0] == '#'
    &&& forall|i: int| 1 <= i < 7 ==> is_hex_digit(#[trigger] s[i])
}

/// The color denoted by a valid color text.
pub open spec fn parsed_color(s: Seq<char>) -> Color {
    Color {
        red: (hex_digit_value(s[1]) * 16 + hex_digit_value(s[2])) as u8,
        green: (hex_digit_value(s[3]) * 16 + hex_digit_value(s[4])) as u8,
        blue: (hex_digit_value(s[5]) * 16 + hex_digit_value(s[6])) as u8,
    }
}

/// The canonical lowercase text of a color.
pub open spec fn color_text(c: Color) -> Seq<char> {
    seq![
        '#',
        hex_digit_char(c.red as int / 16),
        hex_digit_char(c.red as int % 16),
        hex_digit_char(c.green as int / 16),
        hex_digit_char(c.green as int % 16),
        hex_digit_char(c.blue as int / 16),
        hex_digit_char(c.blue as int % 16),
    ]
}

/// Hex digit value of `c`, or `None` when `c` is not a hex digit.
fn hex_value(c: char) -> (r: Option<u8>)
    ensures
        r is Some <==> is_hex_digit(c),
        r is Some ==> r->0 == hex_digit_value(c) && r->0 < 16,
{
    let u = c as u32;
    if 48 <= u && u <= 57 {
        Some((u - 48) as u8)
    } else if 97 <= u && u <= 102 {
        Some((u - 87) as u8)
    } else if 65 <= u && u <= 70 {
        Some((u - 55) as u8)
    } else {
        None
    }
}

/// The one-character string of the lowercase hex digit for `v`.
pub(crate) fn hex_digit_str(v: u8) -> (r: &'static str)
    requires
        v < 16,
    ensures
        r@.len() == 1,
        r@[0] == hex_digit_char(v as int),
{
    proof {
        reveal_strlit("0");
        reveal_strlit("1");
        reveal_strlit("2");
        reveal_strlit("3");
        reveal_strlit("4");
        reveal_strlit("5");
        reveal_strlit("6");
        reveal_strlit("7");
        reveal_strlit("8");
        reveal_strlit("9");
        reveal_strlit("a");
        reveal_strlit("b");
        reveal_strlit("c");
        reveal_strlit("d");
        reveal_strlit("e");
        reveal_strlit("f");
    }
    match v {
        0 => "0",
        1 => "1",
        2 => "2",
        3 => "3",
        4 => "4",
        5 => "5",
        6 => "6",
        7 => "7",
        8 => "8",
        9 => "9",
        10 => "a",
        11 => "b",
        12 => "c",
        13 => "d",
        14 => "e",
        _ => "f",
    }
}

impl Color {
    /// Parses `#rrggbb` text, in either case.
    ///
    /// Fails with `BadFormat` when the text is not 7 characters starting with
    /// `#`, and with `ParseError` when any of the remaining six characters is
    /// not a hex digit.
    pub fn from_str(text: &str) -> (r: Result<Color, ColorError>)
        ensures
            r is Ok <==> valid_color_text(text@),
            valid_color_text(text@) ==> r == Ok::<Color, ColorError>(parsed_color(text@)),
            !(text@.len() == 7 && text@[0] == '#') ==> r == Err::<Color, ColorError>(bad_format()),
            text@.len() == 7 && text@[0] == '#' && !valid_color_text(text@)
                ==> r == Err::<Color, ColorError>(parse_error()),
    {
        if text.unicode_len() != 7 {
            return Err(ColorError { kind: ColorErrorKind::BadFormat });
        }
        if text.get_char(0) != '#' {
            return Err(ColorError { kind: ColorErrorKind::BadFormat });
        }
        let d1 = hex_value(text.get_char(1));
        let d2 = hex_value(text.get_char(2));
        let d3 = hex_value(text.get_char(3));
        let d4 = hex_value(text.get_char(4));
        let d5 = hex_value(text.get_char(5));
        let d6 = hex_value(text.get_char(6));
        match (d1, d2, d3, d4, d5, d6) {
            (Some(h1), Some(h2), Some(h3), Some(h4), Some(h5), Some(h6)) => {
                Ok(Color { red: h1 * 16 + h2, green: h3 * 16 + h4, blue: h5 * 16 + h6 })
            },
            _ => Err(ColorError { kind: ColorErrorKind::ParseError }),
        }
    }

    /// Formats the color as its canonical lowercase `#rrggbb` text.
    pub fn format(&self) -> (r: String)
        ensures
            r@ == color_text(*self),
    {
        proof {
            reveal_strlit("#");
        }
        let mut s = String::from_str("#");
        s.append(hex_digit_str(self.red / 16));
        s.append(hex_digit_str(self.red % 16));
        s.append(hex_digit_str(self.green / 16));
        s.append(hex_digit_str(self.green % 16));
        s.append(hex_digit_str(self.blue / 16));
        s.append(hex_digit_str(self.blue % 16));
        proof {
            assert(s@ =~= color_text(*self));
        }
        s
    }
}

impl ColorError {
    /// A human-readable description of the error.
    pub fn message(&self) -> (r: &'static str)
        ensures
            self.kind == ColorErrorKind::BadFormat ==> r@ == "unknown color format"@,
            self.kind == ColorErrorKind::ParseError ==> r@ == "error parsing color format"@,
    {
        match self.kind {
            ColorErrorKind::BadFormat => "unknown color format",
            ColorErrorKind::ParseError => "error parsing color format",
        }
    }
}

/// A hex digit character decodes back to the value it was made from.
pub proof fn lemma_hex_digit_char_value(x: int)
    requires
        0 <= x < 16,
    ensures
        is_hex_digit(hex_digit_char(x)),
        hex_digit_value(hex_digit_char(x)) == x,
{
}

/// Parsing then formatting a valid color text gives the text back,
/// normalized to lowercase.
#[verifier::rlimit(50)]
pub proof fn lemma_color_round_trip(s: Seq<char>)
    requires
        valid_color_text(s),
    ensures
        color_text(parsed_color(s)) == lower_text(s),
{
    assert forall|i: int| 1 <= i < 7 implies hex_digit_char(hex_digit_value(s[i]))
        == lower_char(s[i]) by {
        assert(is_hex_digit(s[i]));
    }
    assert forall|i: int| 1 <= i < 7 implies 0 <= hex_digit_value(#[trigger] s[i]) < 16 by {
        assert(is_hex_digit(s[i]));
    }
    assert(lower_char('#') == '#');
    assert(color_text(parsed_color(s)) =~= lower_text(s));
}

/// Formatting then parsing gives the color back: the canonical text is valid
/// and denotes the color it was formatted from.
pub proof fn lemma_color_text_parses(c: Color)
    ensures
        valid_color_text(color_text(c)),
        parsed_color(color_text(c)) == c,
{
    assert forall|v: int| 0 <= v < 16 implies is_hex_digit(hex_digit_char(v))
        && hex_digit_value(hex_digit_char(v)) == v by {
    }
    assert(valid_color_text(color_text(c)));
}

} // verus!
