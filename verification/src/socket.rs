//! Push-socket logic: what to do with each incoming frame, and when the
//! change-broadcast loop must push an update to subscribers.

use vstd::prelude::*;
use crate::color::Color;
use crate::wire::{color_from_json, color_json_text, color_to_json};

verus! {

/// One incoming event on a push-socket connection, already unframed by the
/// transport.
pub enum SocketEvent {
    /// A text frame.
    Text(String),
    /// An orderly close frame, a reset without a closing handshake, or the
    /// end of the stream.
    Closed,
    /// Any other frame type: ignored.
    Other,
    /// An unrecoverable read error.
    Failed,
}

/// The mathematical model of a `SocketEvent`.
pub enum SocketEventV {
    Text(Seq<char>),
    Closed,
    Other,
    Failed,
}

impl View for SocketEvent {
    type V = SocketEventV;

    open spec fn view(&self) -> SocketEventV {
        match self {
            SocketEvent::Text(s) => SocketEventV::Text(s@),
            SocketEvent::Closed => SocketEventV::Closed,
            SocketEvent::Other => SocketEventV::Other,
            SocketEvent::Failed => SocketEventV::Failed,
        }
    }
}

/// What the connection's receive loop must do with an event.
#[derive(Clone, Copy, PartialEq, Eq, Structural, Debug)]
pub enum SocketAction {
    /// Apply this color to the engine.
    Apply(Color),
    /// Drop the event and keep listening.
    Ignore,
    /// Stop the loop, deregister the connection, and close it best-effort.
    Disconnect,
}

/// The receive-loop policy: a text frame holding a color wire text applies
/// that color; an unparseable text frame is dropped; a close, reset, end of
/// stream or read error ends the connection; anything else is ignored.
pub open spec fn socket_action_spec(ev: SocketEventV) -> SocketAction {
    match ev {
        SocketEventV::Text(s) => {
            if exists|c: Color| s == color_json_text(c) {
                SocketAction::Apply(choose|c: Color| s == color_json_text(c))
            } else {
                SocketAction::Ignore
            }
        },
        SocketEventV::Closed => SocketAction::Disconnect,
        SocketEventV::Failed => SocketAction::Disconnect,
        SocketEventV::Other => SocketAction::Ignore,
    }
}

/// Decides what one incoming event asks of the connection's receive loop.
pub fn socket_action(ev: &SocketEvent) -> (act: SocketAction)
    ensures
        act == socket_action_spec(ev@),
{
    match ev {
        SocketEvent::Text(s) => {
            match color_from_json(s.as_str()) {
                Some(c) => {
                    proof {
                        assert(s@ == color_json_text(c));
                    }
                    SocketAction::Apply(c)
                },
                None => SocketAction::Ignore,
            }
        },
        SocketEvent::Closed => SocketAction::Disconnect,
        SocketEvent::Failed => SocketAction::Disconnect,
        SocketEvent::Other => SocketAction::Ignore,
    }
}

/// What one broadcast observation yields: the wire text to push to every
/// subscriber when the color changed since the last push, nothing when it
/// did not.
pub open spec fn broadcast_step(last: Color, current: Color) -> Option<Seq<char>> {
    if current != last {
        Some(color_json_text(current))
    } else {
        None
    }
}

/// The change-broadcast loop's memory: the last color pushed to
/// subscribers.
pub struct Broadcaster {
    last: Color,
}

impl View for Broadcaster {
    type V = Color;

    closed spec fn view(&self) -> Color {
        self.last
    }
}

impl Broadcaster {
    /// Starts broadcasting against a known starting color, typically the
    /// engine's color at the time the loop starts.
    pub fn new(initial: Color) -> (b: Broadcaster)
        ensures
            b@ == initial,
    {
        Broadcaster { last: initial }
    }

    /// Observes the engine's current color. Returns the message to push to
    /// every currently registered subscriber exactly when the color changed
    /// since the last push: one message per observed distinct transition,
    /// serialized once, never one per unchanged observation.
    pub fn observe(&mut self, current: Color) -> (msg: Option<String>)
        ensures
            final(self)@ == current,
            msg is Some <==> broadcast_step(old(self)@, current) is Some,
            msg matches Some(m) ==> m@ == broadcast_step(old(self)@, current)->0,
    {
        if current != self.last {
            self.last = current;
            Some(color_to_json(&current))
        } else {
            None
        }
    }
}

/// The broadcast loop sends exactly one message per observed distinct color
/// transition: a changed color yields one message, and observing the same
/// color again immediately after yields none.
pub proof fn lemma_broadcast_once(last: Color, current: Color)
    ensures
        broadcast_step(last, current) is Some <==> last != current,
        broadcast_step(current, current) is None,
        broadcast_step(last, current) matches Some(m) ==> m == color_json_text(current),
{
}

} // verus!
