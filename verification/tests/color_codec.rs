use lumen::color::{Color, ColorErrorKind};

#[test]
fn parse_exact_value() {
    let c = Color::from_str("#f29bd4").unwrap();
    assert_eq!(c, Color { red: 242, green: 155, blue: 212 });
}

#[test]
fn round_trip_lowercase() {
    let inputs = ["#f29bd4", "#000000", "#ffffff", "#00ff00", "#123abc"];
    for s in inputs {
        let c = Color::from_str(s).unwrap();
        assert_eq!(c.format(), s);
    }
}

#[test]
fn round_trip_normalizes_case() {
    let c = Color::from_str("#F29BD4").unwrap();
    assert_eq!(c, Color { red: 242, green: 155, blue: 212 });
    assert_eq!(c.format(), "#f29bd4");
    let d = Color::from_str("#AbCdEf").unwrap();
    assert_eq!(d.format(), "#abcdef");
}

#[test]
fn format_zero_pads() {
    let c = Color { red: 0, green: 1, blue: 255 };
    assert_eq!(c.format(), "#0001ff");
}

#[test]
fn parse_rejects_wrong_length() {
    assert_eq!(Color::from_str("").unwrap_err().kind, ColorErrorKind::BadFormat);
    assert_eq!(Color::from_str("#f29bd").unwrap_err().kind, ColorErrorKind::BadFormat);
    assert_eq!(Color::from_str("#f29bd44").unwrap_err().kind, ColorErrorKind::BadFormat);
    assert_eq!(Color::from_str("#").unwrap_err().kind, ColorErrorKind::BadFormat);
}

#[test]
fn parse_rejects_missing_hash() {
    assert_eq!(Color::from_str("f29bd44").unwrap_err().kind, ColorErrorKind::BadFormat);
    assert_eq!(Color::from_str("0f29bd4").unwrap_err().kind, ColorErrorKind::BadFormat);
}

#[test]
fn parse_rejects_non_hex() {
    assert_eq!(Color::from_str("#f29bdg").unwrap_err().kind, ColorErrorKind::ParseError);
    assert_eq!(Color::from_str("#zzzzzz").unwrap_err().kind, ColorErrorKind::ParseError);
    assert_eq!(Color::from_str("# 29bd4").unwrap_err().kind, ColorErrorKind::ParseError);
}

#[test]
fn parse_counts_characters_not_bytes() {
    // Seven characters, but one is not a hex digit: the shape is right and
    // the content is not.
    assert_eq!(Color::from_str("#f29bd\u{1F600}").unwrap_err().kind, ColorErrorKind::ParseError);
}

#[test]
fn error_messages() {
    let bad = Color::from_str("nope").unwrap_err();
    assert_eq!(bad.message(), "unknown color format");
    let parse = Color::from_str("#nothex").unwrap_err();
    assert_eq!(parse.message(), "error parsing color format");
}
