use lumen::color::Color;
use lumen::socket::{socket_action, Broadcaster, SocketAction, SocketEvent};
use lumen::wire::{color_from_json, color_to_json};

const PINK: Color = Color { red: 242, green: 155, blue: 212 };

#[test]
fn json_canonical_text() {
    assert_eq!(color_to_json(&PINK), "{\"red\":242,\"green\":155,\"blue\":212}");
    let black = Color { red: 0, green: 0, blue: 0 };
    assert_eq!(color_to_json(&black), "{\"red\":0,\"green\":0,\"blue\":0}");
}

#[test]
fn json_round_trip() {
    for c in [
        PINK,
        Color { red: 0, green: 0, blue: 0 },
        Color { red: 255, green: 255, blue: 255 },
        Color { red: 7, green: 42, blue: 100 },
    ] {
        assert_eq!(color_from_json(color_to_json(&c).as_str()), Some(c));
    }
}

#[test]
fn json_parse_rejects_non_canonical() {
    assert_eq!(color_from_json(""), None);
    assert_eq!(color_from_json("{}"), None);
    assert_eq!(color_from_json("{\"red\":242,\"green\":155,\"blue\":212"), None);
    assert_eq!(color_from_json("{\"red\":242,\"green\":155,\"blue\":212} "), None);
    assert_eq!(color_from_json("{ \"red\":242,\"green\":155,\"blue\":212}"), None);
    assert_eq!(color_from_json("{\"red\":042,\"green\":155,\"blue\":212}"), None);
    assert_eq!(color_from_json("{\"red\":256,\"green\":155,\"blue\":212}"), None);
    assert_eq!(color_from_json("{\"red\":2421,\"green\":155,\"blue\":212}"), None);
    assert_eq!(color_from_json("{\"blue\":242,\"green\":155,\"red\":212}"), None);
}

#[test]
fn socket_text_applies_color() {
    let ev = SocketEvent::Text(String::from("{\"red\":1,\"green\":2,\"blue\":3}"));
    assert_eq!(socket_action(&ev), SocketAction::Apply(Color { red: 1, green: 2, blue: 3 }));
}

#[test]
fn socket_bad_text_ignored() {
    let ev = SocketEvent::Text(String::from("#ff0000"));
    assert_eq!(socket_action(&ev), SocketAction::Ignore);
    let ev = SocketEvent::Text(String::from(""));
    assert_eq!(socket_action(&ev), SocketAction::Ignore);
}

#[test]
fn socket_close_and_errors_disconnect() {
    assert_eq!(socket_action(&SocketEvent::Closed), SocketAction::Disconnect);
    assert_eq!(socket_action(&SocketEvent::Failed), SocketAction::Disconnect);
    assert_eq!(socket_action(&SocketEvent::Other), SocketAction::Ignore);
}

#[test]
fn broadcast_once_per_transition() {
    let black = Color { red: 0, green: 0, blue: 0 };
    let mut b = Broadcaster::new(black);
    assert_eq!(b.observe(black), None);
    assert_eq!(b.observe(black), None);
    let first = b.observe(PINK);
    assert_eq!(first, Some(String::from("{\"red\":242,\"green\":155,\"blue\":212}")));
    assert_eq!(b.observe(PINK), None);
    assert_eq!(b.observe(PINK), None);
    assert_eq!(b.observe(black), Some(String::from("{\"red\":0,\"green\":0,\"blue\":0}")));
    assert_eq!(b.observe(PINK), Some(String::from("{\"red\":242,\"green\":155,\"blue\":212}")));
}
