//! The color's JSON wire form: `{"red":R,"green":G,"blue":B}`.
//!
//! This is the text pushed to and accepted from push-socket subscribers and
//! the browser. The codec is canonical: channel values are plain decimal
//! with no leading zeros, the fields come in fixed order, and no extra
//! whitespace is produced or accepted.

use vstd::prelude::*;
use vstd::arithmetic::div_mod::{
    lemma_div_denominator, lemma_fundamental_div_mod, lemma_fundamental_div_mod_converse,
};
use crate::color::{hex_digit_char, hex_digit_value, lemma_hex_digit_char_value, Color};

verus! {

/// Is `c` a decimal digit?
pub open spec fn is_dec_digit(c: char) -> bool {
    48 <= c as u32 <= 57
}

/// Canonical decimal digits of a value in `[0, 1000)`: no leading zeros.
pub open spec fn dec_digits(v: int) -> Seq<char> {
    if v < 10 {
        seq![hex_digit_char(v)]
    } else if v < 100 {
        seq![hex_digit_char(v / 10), hex_digit_char(v % 10)]
    } else {
        seq![hex_digit_char(v / 100), hex_digit_char((v / 10) % 10), hex_digit_char(v % 10)]
    }
}

/// The canonical wire text of a color.
pub open spec fn color_json_text(c: Color) -> Seq<char> {
    "{\"red\":"@ + dec_digits(c.red as int) + ",\"green\":"@ + dec_digits(c.green as int)
        + ",\"blue\":"@ + dec_digits(c.blue as int) + "}"@
}

/// The canonical decimal digits of a channel value are one to three decimal
/// digits, the first nonzero unless the value is below ten, and they decode
/// back to the value.
proof fn lemma_dec_digits_shape(v: int)
    requires
        0 <= v <= 255,
    ensures
        1 <= dec_digits(v).len() <= 3,
        forall|k: int| 0 <= k < dec_digits(v).len() ==> is_dec_digit(#[trigger] dec_digits(v)[k]),
        v >= 10 ==> dec_digits(v)[0] != '0',
{
}

/// One channel value in canonical decimal.
fn dec_str(v: u8) -> (r: String)
    ensures
        r@ == dec_digits(v as int),
{
    if v >= 100 {
        let mut s = String::from_str(crate::color::hex_digit_str(v / 100));
        s.append(crate::color::hex_digit_str((v / 10) % 10));
        s.append(crate::color::hex_digit_str(v % 10));
        proof {
            assert(s@ =~= dec_digits(v as int));
        }
        s
    } else if v >= 10 {
        let mut s = String::from_str(crate::color::hex_digit_str(v / 10));
        s.append(crate::color::hex_digit_str(v % 10));
        proof {
            assert(s@ =~= dec_digits(v as int));
        }
        s
    } else {
        let s = String::from_str(crate::color::hex_digit_str(v));
        proof {
            assert(s@ =~= dec_digits(v as int));
        }
        s
    }
}

/// Where each piece of the wire text starts: after the opening and the
/// `red` key.
spec fn json_off1() -> int {
    "{\"red\":"@.len() as int
}

/// ... after the red digits.
spec fn json_off2(c: Color) -> int {
    json_off1() + dec_digits(c.red as int).len()
}

/// ... after the `green` key.
spec fn json_off3(c: Color) -> int {
    json_off2(c) + ",\"green\":"@.len()
}

/// ... after the green digits.
spec fn json_off4(c: Color) -> int {
    json_off3(c) + dec_digits(c.green as int).len()
}

/// ... after the `blue` key.
spec fn json_off5(c: Color) -> int {
    json_off4(c) + ",\"blue\":"@.len()
}

/// ... after the blue digits, at the closing brace.
spec fn json_off6(c: Color) -> int {
    json_off5(c) + dec_digits(c.blue as int).len()
}

/// The value `v` sits at `pos` in `s` in canonical decimal, maximally: its
/// canonical digits are there and no further digit follows them.
spec fn canonical_dec_at(s: Seq<char>, pos: int, v: int) -> bool {
    &&& 0 <= pos
    &&& pos + dec_digits(v).len() <= s.len()
    &&& s.subrange(pos, pos + dec_digits(v).len()) == dec_digits(v)
    &&& (pos + dec_digits(v).len() == s.len() || !is_dec_digit(s[pos + dec_digits(v).len()]))
}

/// Canonical decimal digits determine their value.
proof fn lemma_dec_digits_injective(v1: int, v2: int)
    requires
        0 <= v1 <= 255,
        0 <= v2 <= 255,
        dec_digits(v1) == dec_digits(v2),
    ensures
        v1 == v2,
{
    lemma_decode(v1);
    lemma_decode(v2);
    assert(dec_digits(v1)[0] == dec_digits(v2)[0]);
    if dec_digits(v1).len() >= 2 {
        assert(dec_digits(v1)[1] == dec_digits(v2)[1]);
    }
    if dec_digits(v1).len() >= 3 {
        assert(dec_digits(v1)[2] == dec_digits(v2)[2]);
    }
}

/// A channel value is recovered from its canonical digits.
proof fn lemma_decode(v: int)
    requires
        0 <= v <= 255,
    ensures
        v < 10 ==> v == hex_digit_value(dec_digits(v)[0]),
        10 <= v < 100 ==> v == 10 * hex_digit_value(dec_digits(v)[0]) + hex_digit_value(
            dec_digits(v)[1],
        ),
        100 <= v ==> v == 100 * hex_digit_value(dec_digits(v)[0]) + 10 * hex_digit_value(
            dec_digits(v)[1],
        ) + hex_digit_value(dec_digits(v)[2]),
{
    lemma_fundamental_div_mod(v, 10);
    if v < 10 {
        lemma_hex_digit_char_value(v);
    } else if v < 100 {
        lemma_hex_digit_char_value(v / 10);
        lemma_hex_digit_char_value(v % 10);
    } else {
        lemma_fundamental_div_mod(v / 10, 10);
        lemma_div_denominator(v, 10, 10);
        lemma_hex_digit_char_value(v / 100);
        lemma_hex_digit_char_value((v / 10) % 10);
        lemma_hex_digit_char_value(v % 10);
    }
}

/// At one position only one value can sit canonically.
proof fn lemma_canonical_dec_unique(s: Seq<char>, pos: int, v1: int, v2: int)
    requires
        0 <= v1 <= 255,
        0 <= v2 <= 255,
        canonical_dec_at(s, pos, v1),
        canonical_dec_at(s, pos, v2),
    ensures
        v1 == v2,
{
    lemma_dec_digits_shape(v1);
    lemma_dec_digits_shape(v2);
    let l1 = dec_digits(v1).len() as int;
    let l2 = dec_digits(v2).len() as int;
    if l1 == l2 {
        assert(dec_digits(v1) =~= dec_digits(v2)) by {
            assert forall|k: int| 0 <= k < l1 implies dec_digits(v1)[k] == dec_digits(v2)[k] by {
                assert(s.subrange(pos, pos + l1)[k] == s[pos + k]);
                assert(s.subrange(pos, pos + l2)[k] == s[pos + k]);
            }
        }
        lemma_dec_digits_injective(v1, v2);
    } else if l1 < l2 {
        assert(s.subrange(pos, pos + l2)[l1] == s[pos + l1]);
        assert(is_dec_digit(s[pos + l1]));
    } else {
        assert(s.subrange(pos, pos + l1)[l2] == s[pos + l2]);
        assert(is_dec_digit(s[pos + l2]));
    }
}

/// The canonical wire text decomposes into its pieces: the three keys, the
/// three channel values sitting canonically, and the closing brace.
proof fn lemma_color_json_structure(c: Color)
    ensures
        color_json_text(c).len() == json_off6(c) + 1,
        color_json_text(c).subrange(0, json_off1()) == "{\"red\":"@,
        canonical_dec_at(color_json_text(c), json_off1(), c.red as int),
        json_off2(c) == json_off1() + dec_digits(c.red as int).len(),
        color_json_text(c).subrange(json_off2(c), json_off3(c)) == ",\"green\":"@,
        canonical_dec_at(color_json_text(c), json_off3(c), c.green as int),
        json_off4(c) == json_off3(c) + dec_digits(c.green as int).len(),
        color_json_text(c).subrange(json_off4(c), json_off5(c)) == ",\"blue\":"@,
        canonical_dec_at(color_json_text(c), json_off5(c), c.blue as int),
        json_off6(c) == json_off5(c) + dec_digits(c.blue as int).len(),
        color_json_text(c).subrange(json_off6(c), json_off6(c) + 1) == "}"@,
{
    reveal_strlit("{\"red\":");
    reveal_strlit(",\"green\":");
    reveal_strlit(",\"blue\":");
    reveal_strlit("}");
    lemma_dec_digits_shape(c.red as int);
    lemma_dec_digits_shape(c.green as int);
    lemma_dec_digits_shape(c.blue as int);
    let t = color_json_text(c);
    assert(t.subrange(0, json_off1()) =~= "{\"red\":"@);
    assert(t.subrange(json_off1(), json_off2(c)) =~= dec_digits(c.red as int));
    assert(t.subrange(json_off2(c), json_off3(c)) =~= ",\"green\":"@);
    assert(t.subrange(json_off3(c), json_off4(c)) =~= dec_digits(c.green as int));
    assert(t.subrange(json_off4(c), json_off5(c)) =~= ",\"blue\":"@);
    assert(t.subrange(json_off5(c), json_off6(c)) =~= dec_digits(c.blue as int));
    assert(t.subrange(json_off6(c), json_off6(c) + 1) =~= "}"@);
    assert(t[json_off2(c)] == ',');
    assert(t[json_off4(c)] == ',');
    assert(t[json_off6(c)] == '}');
}

/// Serializes a color to its canonical wire text.
pub fn color_to_json(c: &Color) -> (s: String)
    ensures
        s@ == color_json_text(*c),
{
    let mut s = String::from_str("{\"red\":");
    let r = dec_str(c.red);
    s.append(r.as_str());
    s.append(",\"green\":");
    let g = dec_str(c.green);
    s.append(g.as_str());
    s.append(",\"blue\":");
    let b = dec_str(c.blue);
    s.append(b.as_str());
    s.append("}");
    proof {
        assert(s@ =~= color_json_text(*c));
    }
    s
}

/// Does `pat` occur in `s` starting at character `pos`?
fn match_prefix(s: &str, pos: usize, pat: &str) -> (b: bool)
    requires
        pos <= s@.len(),
    ensures
        b == (pos + pat@.len() <= s@.len() && s@.subrange(pos as int, pos + pat@.len()) == pat@),
{
    let n = s.unicode_len();
    let m = pat.unicode_len();
    if n - pos < m {
        return false;
    }
    let mut i: usize = 0;
    while i < m
        invariant
            0 <= i <= m,
            m == pat@.len(),
            n == s@.len(),
            pos + m <= n,
            forall|k: int| 0 <= k < i ==> s@[pos + k] == pat@[k],
        decreases m - i,
    {
        if s.get_char(pos + i) != pat.get_char(i) {
            proof {
                if s@.subrange(pos as int, pos + pat@.len()) == pat@ {
                    assert(s@.subrange(pos as int, pos + pat@.len())[i as int] == s@[pos + i]);
                }
            }
            return false;
        }
        i = i + 1;
    }
    proof {
        assert(s@.subrange(pos as int, pos + pat@.len()) =~= pat@);
    }
    true
}

/// Decimal digit value of `c`, or `None` when `c` is not a decimal digit.
fn dec_value(c: char) -> (r: Option<u8>)
    ensures
        r is Some <==> is_dec_digit(c),
        r is Some ==> r->0 == hex_digit_value(c) && r->0 < 10,
{
    let u = c as u32;
    if 48 <= u && u <= 57 {
        Some((u - 48) as u8)
    } else {
        None
    }
}

/// Decimal digit value of the character at `i`, or `None` at the end of the
/// text or on a non-digit.
fn dec_value_at(s: &str, i: usize) -> (r: Option<u8>)
    requires
        i <= s@.len(),
    ensures
        r is Some <==> (i < s@.len() && is_dec_digit(s@[i as int])),
        r is Some ==> r->0 == hex_digit_value(s@[i as int]) && r->0 < 10,
{
    if i < s.unicode_len() {
        dec_value(s.get_char(i))
    } else {
        None
    }
}

/// A decimal digit character is the canonical digit of its value.
proof fn lemma_char_of_value(c: char, d: int)
    requires
        is_dec_digit(c),
        hex_digit_value(c) == d,
    ensures
        c == hex_digit_char(d),
        0 <= d < 10,
{
    vstd::utf8::char_u32_cast(c, c as u32);
    vstd::utf8::char_u32_cast(hex_digit_char(d), hex_digit_char(d) as u32);
}

/// Reads the channel value sitting canonically at `pos`: one to three
/// decimal digits, no leading zero, not followed by another digit, at most
/// 255. Returns the value and the position just past it; `None` when no
/// channel value sits canonically at `pos`.
fn parse_dec_at(s: &str, pos: usize) -> (r: Option<(u8, usize)>)
    requires
        pos <= s@.len(),
    ensures
        match r {
            Some(vp) => canonical_dec_at(s@, pos as int, vp.0 as int) && vp.1 as int == pos
                + dec_digits(vp.0 as int).len(),
            None => forall|v: int| 0 <= v <= 255 ==> !canonical_dec_at(s@, pos as int, v),
        },
{
    let n = s.unicode_len();
    let d0 = match dec_value_at(s, pos) {
        Some(d) => d,
        None => {
            proof {
                assert forall|v: int| 0 <= v <= 255 implies !canonical_dec_at(
                    s@,
                    pos as int,
                    v,
                ) by {
                    lemma_dec_digits_shape(v);
                    if canonical_dec_at(s@, pos as int, v) {
                        assert(s@.subrange(pos as int, pos + dec_digits(v).len())[0] == s@[
                            pos as int
                        ]);
                    }
                }
            }
            return None;
        },
    };
    proof {
        lemma_char_of_value(s@[pos as int], d0 as int);
    }
    let od1 = dec_value_at(s, pos + 1);
    if d0 == 0 {
        match od1 {
            Some(_) => {
                proof {
                    assert forall|v: int| 0 <= v <= 255 implies !canonical_dec_at(
                        s@,
                        pos as int,
                        v,
                    ) by {
                        lemma_dec_digits_shape(v);
                        if canonical_dec_at(s@, pos as int, v) {
                            assert(s@.subrange(pos as int, pos + dec_digits(v).len())[0] == s@[
                                pos as int
                            ]);
                            if 1 <= v < 10 {
                                lemma_char_of_value(s@[pos as int], v);
                            }
                        }
                    }
                }
                None
            },
            None => {
                proof {
                    assert(s@.subrange(pos as int, pos + 1)[0] == s@[pos as int]);
                    assert(s@.subrange(pos as int, pos + 1) =~= dec_digits(0));
                }
                Some((0, pos + 1))
            },
        }
    } else {
        match od1 {
            None => {
                proof {
                    assert(s@.subrange(pos as int, pos + 1)[0] == s@[pos as int]);
                    assert(s@.subrange(pos as int, pos + 1) =~= dec_digits(d0 as int));
                }
                Some((d0, pos + 1))
            },
            Some(d1) => {
                proof {
                    lemma_char_of_value(s@[pos + 1], d1 as int);
                }
                let v2: u8 = 10 * d0 + d1;
                let od2 = dec_value_at(s, pos + 2);
                match od2 {
                    None => {
                        proof {
                            lemma_fundamental_div_mod_converse(
                                v2 as int,
                                10,
                                d0 as int,
                                d1 as int,
                            );
                            assert(s@.subrange(pos as int, pos + 2)[0] == s@[pos as int]);
                            assert(s@.subrange(pos as int, pos + 2)[1] == s@[pos + 1]);
                            assert(s@.subrange(pos as int, pos + 2) =~= dec_digits(v2 as int));
                        }
                        Some((v2, pos + 2))
                    },
                    Some(d2) => {
                        proof {
                            lemma_char_of_value(s@[pos + 2], d2 as int);
                        }
                        let v3: u32 = 100 * (d0 as u32) + 10 * (d1 as u32) + (d2 as u32);
                        let od3 = dec_value_at(s, pos + 3);
                        if od3.is_some() {
                            proof {
                                assert forall|v: int| 0 <= v <= 255 implies !canonical_dec_at(
                                    s@,
                                    pos as int,
                                    v,
                                ) by {
                                    lemma_dec_digits_shape(v);
                                }
                            }
                            None
                        } else if v3 > 255 {
                            proof {
                                assert forall|v: int| 0 <= v <= 255 implies !canonical_dec_at(
                                    s@,
                                    pos as int,
                                    v,
                                ) by {
                                    lemma_dec_digits_shape(v);
                                    if canonical_dec_at(s@, pos as int, v) {
                                        let l = dec_digits(v).len() as int;
                                        assert(l == 3);
                                        assert(v >= 100);
                                        let sub = s@.subrange(pos as int, pos + 3);
                                        assert(sub[0] == s@[pos as int]);
                                        assert(sub[1] == s@[pos + 1]);
                                        assert(sub[2] == s@[pos + 2]);
                                        lemma_decode(v);
                                        lemma_char_of_value(s@[pos as int], v / 100);
                                        lemma_char_of_value(s@[pos + 1], (v / 10) % 10);
                                        lemma_char_of_value(s@[pos + 2], v % 10);
                                        assert(v == v3);
                                    }
                                }
                            }
                            None
                        } else {
                            proof {
                                let vi = v3 as int;
                                lemma_fundamental_div_mod_converse(
                                    vi,
                                    100,
                                    d0 as int,
                                    10 * (d1 as int) + d2 as int,
                                );
                                lemma_fundamental_div_mod_converse(
                                    vi,
                                    10,
                                    10 * (d0 as int) + d1 as int,
                                    d2 as int,
                                );
                                lemma_fundamental_div_mod_converse(
                                    10 * (d0 as int) + d1 as int,
                                    10,
                                    d0 as int,
                                    d1 as int,
                                );
                                lemma_div_denominator(vi, 10, 10);
                                assert(s@.subrange(pos as int, pos + 3)[0] == s@[pos as int]);
                                assert(s@.subrange(pos as int, pos + 3)[1] == s@[pos + 1]);
                                assert(s@.subrange(pos as int, pos + 3)[2] == s@[pos + 2]);
                                assert(s@.subrange(pos as int, pos + 3) =~= dec_digits(vi));
                            }
                            Some((v3 as u8, pos + 3))
                        }
                    },
                }
            },
        }
    }
}

/// Parses a color from its canonical wire text.
///
/// Succeeds exactly on the texts `color_to_json` produces: `r` is `Some(c)`
/// if and only if the input is the canonical wire text of `c`.
pub fn color_from_json(s: &str) -> (r: Option<Color>)
    ensures
        r is Some ==> s@ == color_json_text(r->0),
        forall|c: Color| s@ == #[trigger] color_json_text(c) ==> r == Some(c),
{
    let n = s.unicode_len();
    if !match_prefix(s, 0, "{\"red\":") {
        proof {
            assert forall|c: Color| s@ != color_json_text(c) by {
                if s@ == color_json_text(c) {
                    lemma_color_json_structure(c);
                }
            }
        }
        return None;
    }
    let p1 = "{\"red\":".unicode_len();
    let (red, p2) = match parse_dec_at(s, p1) {
        Some(vp) => vp,
        None => {
            proof {
                assert forall|c: Color| s@ != color_json_text(c) by {
                    if s@ == color_json_text(c) {
                        lemma_color_json_structure(c);
                    }
                }
            }
            return None;
        },
    };
    proof {
        assert forall|c: Color| s@ == color_json_text(c) implies red as int == c.red
            && p2 as int == json_off2(c) by {
            lemma_color_json_structure(c);
            lemma_canonical_dec_unique(s@, p1 as int, red as int, c.red as int);
        }
    }
    if !match_prefix(s, p2, ",\"green\":") {
        proof {
            assert forall|c: Color| s@ != color_json_text(c) by {
                if s@ == color_json_text(c) {
                    lemma_color_json_structure(c);
                }
            }
        }
        return None;
    }
    let p3 = p2 + ",\"green\":".unicode_len();
    let (green, p4) = match parse_dec_at(s, p3) {
        Some(vp) => vp,
        None => {
            proof {
                assert forall|c: Color| s@ != color_json_text(c) by {
                    if s@ == color_json_text(c) {
                        lemma_color_json_structure(c);
                    }
                }
            }
            return None;
        },
    };
    proof {
        assert forall|c: Color| s@ == color_json_text(c) implies green as int == c.green
            && p4 as int == json_off4(c) by {
            lemma_color_json_structure(c);
            lemma_canonical_dec_unique(s@, p3 as int, green as int, c.green as int);
        }
    }
    if !match_prefix(s, p4, ",\"blue\":") {
        proof {
            assert forall|c: Color| s@ != color_json_text(c) by {
                if s@ == color_json_text(c) {
                    lemma_color_json_structure(c);
                }
            }
        }
        return None;
    }
    let p5 = p4 + ",\"blue\":".unicode_len();
    let (blue, p6) = match parse_dec_at(s, p5) {
        Some(vp) => vp,
        None => {
            proof {
                assert forall|c: Color| s@ != color_json_text(c) by {
                    if s@ == color_json_text(c) {
                        lemma_color_json_structure(c);
                    }
                }
            }
            return None;
        },
    };
    proof {
        assert forall|c: Color| s@ == color_json_text(c) implies blue as int == c.blue
            && p6 as int == json_off6(c) by {
            lemma_color_json_structure(c);
            lemma_canonical_dec_unique(s@, p5 as int, blue as int, c.blue as int);
        }
    }
    if !match_prefix(s, p6, "}") {
        proof {
            assert forall|c: Color| s@ != color_json_text(c) by {
                if s@ == color_json_text(c) {
                    lemma_color_json_structure(c);
                }
            }
        }
        return None;
    }
    let p7 = p6 + "}".unicode_len();
    if p7 != n {
        proof {
            reveal_strlit("}");
            assert forall|c: Color| s@ != color_json_text(c) by {
                if s@ == color_json_text(c) {
                    lemma_color_json_structure(c);
                }
            }
        }
        return None;
    }
    let found = Color { red, green, blue };
    proof {
        reveal_strlit("}");
        lemma_color_json_structure(found);
        let t = color_json_text(found);
        assert(s@ =~= t) by {
            assert forall|i: int| 0 <= i < s@.len() implies s@[i] == t[i] by {
                let o1 = json_off1();
                let o2 = json_off2(found);
                let o3 = json_off3(found);
                let o4 = json_off4(found);
                let o5 = json_off5(found);
                let o6 = json_off6(found);
                if i < o1 {
                    assert(s@.subrange(0, o1)[i] == s@[i]);
                    assert(t.subrange(0, o1)[i] == t[i]);
                } else if i < o2 {
                    assert(s@.subrange(o1, o2)[i - o1] == s@[i]);
                    assert(t.subrange(o1, o2)[i - o1] == t[i]);
                } else if i < o3 {
                    assert(s@.subrange(o2, o3)[i - o2] == s@[i]);
                    assert(t.subrange(o2, o3)[i - o2] == t[i]);
                } else if i < o4 {
                    assert(s@.subrange(o3, o4)[i - o3] == s@[i]);
                    assert(t.subrange(o3, o4)[i - o3] == t[i]);
                } else if i < o5 {
                    assert(s@.subrange(o4, o5)[i - o4] == s@[i]);
                    assert(t.subrange(o4, o5)[i - o4] == t[i]);
                } else if i < o6 {
                    assert(s@.subrange(o5, o6)[i - o5] == s@[i]);
                    assert(t.subrange(o5, o6)[i - o5] == t[i]);
                } else {
                    assert(s@.subrange(o6, o6 + 1)[i - o6] == s@[i]);
                    assert(t.subrange(o6, o6 + 1)[i - o6] == t[i]);
                }
            }
        }
    }
    Some(found)
}

} // verus!
