//! Dispatch of control-protocol messages onto the engine.
//!
//! Messages arrive already decoded from the wire: an address and a list of
//! typed arguments. The protocol is unacknowledged, so anything unexpected
//! is dropped without an error to the sender.

use vstd::prelude::*;
use crate::color::Color;
use crate::lights::{set_pattern_t, set_t, Lights};
use crate::pattern::{valid_pattern, Pattern, PatternV};

verus! {

/// One decoded control-protocol argument.
///
/// Fractional color arguments arrive with their channel value already cast
/// to one byte by the transport layer (the cast saturates); integer
/// arguments keep their full range and are truncated here, as the wire
/// protocol prescribes.
#[derive(Clone, Copy, PartialEq, Eq, Structural, Debug)]
pub enum ControlArg {
    /// A 32-bit integer argument.
    Int(i32),
    /// A single-precision fractional argument, cast to one byte.
    Float(u8),
    /// A double-precision fractional argument, cast to one byte.
    Double(u8),
    /// A packed color argument (alpha ignored).
    PackedColor(Color),
    /// Any argument type the dispatch does not use.
    Other,
}

/// What a control message asks the engine to do.
#[derive(Clone, PartialEq, Debug)]
pub enum ControlAction {
    /// Show this color steadily.
    SetColor(Color),
    /// Replace the whole pattern.
    SetPattern(Pattern),
    /// Unknown address or unexpected argument shape: drop the message.
    Ignore,
}

/// The mathematical model of a `ControlAction`.
pub enum ControlActionV {
    SetColor(Color),
    SetPattern(PatternV),
    Ignore,
}

impl View for ControlAction {
    type V = ControlActionV;

    open spec fn view(&self) -> ControlActionV {
        match self {
            ControlAction::SetColor(c) => ControlActionV::SetColor(*c),
            ControlAction::SetPattern(p) => ControlActionV::SetPattern(p@),
            ControlAction::Ignore => ControlActionV::Ignore,
        }
    }
}

/// An integer argument truncated to one byte, as a two's-complement cast
/// does: the value modulo 256.
pub open spec fn byte_of_i32(v: i32) -> u8 {
    ((v as int) % 256) as u8
}

/// The color a control message's argument list denotes: a homogeneous
/// triplet of one numeric kind, or one packed color. Anything else, mixed
/// kinds included, denotes nothing.
pub open spec fn args_color(args: Seq<ControlArg>) -> Option<Color> {
    if args.len() == 3 {
        match (args[0], args[1], args[2]) {
            (ControlArg::Int(r), ControlArg::Int(g), ControlArg::Int(b)) => Some(
                Color { red: byte_of_i32(r), green: byte_of_i32(g), blue: byte_of_i32(b) },
            ),
            (ControlArg::Float(r), ControlArg::Float(g), ControlArg::Float(b)) => Some(
                Color { red: r, green: g, blue: b },
            ),
            (ControlArg::Double(r), ControlArg::Double(g), ControlArg::Double(b)) => Some(
                Color { red: r, green: g, blue: b },
            ),
            _ => None,
        }
    } else if args.len() == 1 {
        match args[0] {
            ControlArg::PackedColor(c) => Some(c),
            _ => None,
        }
    } else {
        None
    }
}

/// The dispatch table: address and argument shape to engine action.
pub open spec fn dispatch_spec(addr: Seq<char>, args: Seq<ControlArg>) -> ControlActionV {
    if addr == "/color"@ {
        match args_color(args) {
            Some(c) => ControlActionV::SetColor(c),
            None => ControlActionV::Ignore,
        }
    } else if addr == "/pattern/off"@ {
        if args.len() == 0 {
            ControlActionV::SetPattern(PatternV::Off)
        } else {
            ControlActionV::Ignore
        }
    } else if addr == "/pattern/solid"@ {
        match args_color(args) {
            Some(c) => ControlActionV::SetPattern(PatternV::Solid(c)),
            None => ControlActionV::Ignore,
        }
    } else {
        ControlActionV::Ignore
    }
}

/// Character-wise string equality.
fn str_eq(a: &str, b: &str) -> (r: bool)
    ensures
        r == (a@ == b@),
{
    let n = a.unicode_len();
    if n != b.unicode_len() {
        return false;
    }
    let mut i: usize = 0;
    while i < n
        invariant
            0 <= i <= n,
            n == a@.len(),
            n == b@.len(),
            forall|k: int| 0 <= k < i ==> a@[k] == b@[k],
        decreases n - i,
    {
        if a.get_char(i) != b.get_char(i) {
            return false;
        }
        i = i + 1;
    }
    proof {
        assert(a@ =~= b@);
    }
    true
}

/// An integer truncated to one byte, as the wire protocol's color channels
/// are.
fn byte_of(v: i32) -> (b: u8)
    ensures
        b == byte_of_i32(v),
{
    let m = v % 256;
    let m2 = if m < 0 {
        m + 256
    } else {
        m
    };
    m2 as u8
}

/// The color denoted by a control message's argument list, if any.
fn color_of_args(args: &Vec<ControlArg>) -> (r: Option<Color>)
    ensures
        r == args_color(args@),
{
    if args.len() == 3 {
        match (args[0], args[1], args[2]) {
            (ControlArg::Int(r), ControlArg::Int(g), ControlArg::Int(b)) => Some(
                Color { red: byte_of(r), green: byte_of(g), blue: byte_of(b) },
            ),
            (ControlArg::Float(r), ControlArg::Float(g), ControlArg::Float(b)) => Some(
                Color { red: r, green: g, blue: b },
            ),
            (ControlArg::Double(r), ControlArg::Double(g), ControlArg::Double(b)) => Some(
                Color { red: r, green: g, blue: b },
            ),
            _ => None,
        }
    } else if args.len() == 1 {
        match args[0] {
            ControlArg::PackedColor(c) => Some(c),
            _ => None,
        }
    } else {
        None
    }
}

/// Decides what a control message asks for, by its address and the shape of
/// its arguments.
pub fn dispatch(addr: &str, args: &Vec<ControlArg>) -> (act: ControlAction)
    ensures
        act@ == dispatch_spec(addr@, args@),
{
    if str_eq(addr, "/color") {
        match color_of_args(args) {
            Some(c) => ControlAction::SetColor(c),
            None => ControlAction::Ignore,
        }
    } else if str_eq(addr, "/pattern/off") {
        if args.len() == 0 {
            ControlAction::SetPattern(Pattern::Off)
        } else {
            ControlAction::Ignore
        }
    } else if str_eq(addr, "/pattern/solid") {
        match color_of_args(args) {
            Some(c) => ControlAction::SetPattern(Pattern::Solid(c)),
            None => ControlAction::Ignore,
        }
    } else {
        ControlAction::Ignore
    }
}

/// Dispatches one control message against the engine: a recognized message
/// mutates the engine as its action says; anything else leaves it untouched.
pub fn apply_control(lights: &mut Lights, addr: &str, args: &Vec<ControlArg>, now_ms: u64)
    requires
        old(lights)@.wf(),
    ensures
        final(lights)@ == match dispatch_spec(addr@, args@) {
            ControlActionV::SetColor(c) => set_t(old(lights)@, c),
            ControlActionV::SetPattern(p) => set_pattern_t(old(lights)@, p, now_ms as int),
            ControlActionV::Ignore => old(lights)@,
        },
        final(lights)@.wf(),
{
    let act = dispatch(addr, args);
    match act {
        ControlAction::SetColor(c) => {
            lights.set(c);
        },
        ControlAction::SetPattern(p) => {
            proof {
                assert(valid_pattern(p@));
            }
            lights.set_pattern(p, now_ms);
        },
        ControlAction::Ignore => {},
    }
}

} // verus!
