use lumen::color::Color;
use lumen::lights::pattern_is_valid;
use lumen::lights::Lights;
use lumen::pattern::{Frame, Pattern};

const BLACK: Color = Color { red: 0, green: 0, blue: 0 };
const RED: Color = Color { red: 255, green: 0, blue: 0 };
const GREEN: Color = Color { red: 0, green: 255, blue: 0 };

fn two_frames(a: Color, b: Color, ms: u64) -> Pattern {
    Pattern::Custom(vec![
        Frame { color: a, duration_ms: ms },
        Frame { color: b, duration_ms: ms },
    ])
}

#[test]
fn initial_state_shows_pattern() {
    let pink = Color { red: 242, green: 155, blue: 212 };
    let lights = Lights::new(Pattern::Solid(pink), 0);
    assert_eq!(lights.get(), pink);
}

#[test]
fn first_tick_renders_once() {
    let pink = Color { red: 242, green: 155, blue: 212 };
    let mut lights = Lights::new(Pattern::Solid(pink), 0);
    assert_eq!(lights.tick(0), Some(pink));
    assert_eq!(lights.tick(10), None);
}

#[test]
fn set_is_idempotent_with_single_render() {
    let mut lights = Lights::new(Pattern::Off, 0);
    lights.tick(0);
    lights.set(RED);
    assert_eq!(lights.get(), RED);
    assert_eq!(lights.tick(10), Some(RED));
    lights.set(RED);
    assert_eq!(lights.get(), RED);
    assert_eq!(lights.tick(20), None);
    assert_eq!(lights.get(), RED);
}

#[test]
fn off_renders_black() {
    let mut lights = Lights::new(Pattern::Solid(RED), 0);
    lights.tick(0);
    lights.set_pattern(Pattern::Off, 10);
    assert_eq!(lights.get(), BLACK);
    assert_eq!(lights.tick(10), Some(BLACK));
    assert_eq!(lights.tick(20), None);
}

#[test]
fn animation_cycles() {
    let mut lights = Lights::new(two_frames(RED, GREEN, 100), 0);
    assert_eq!(lights.get(), RED);
    lights.tick(100);
    assert_eq!(lights.get(), GREEN);
    lights.tick(200);
    assert_eq!(lights.get(), RED);
    lights.tick(300);
    assert_eq!(lights.get(), GREEN);
    lights.tick(1_000_000);
    assert_eq!(lights.get(), RED);
}

#[test]
fn animation_restarts_on_set_pattern() {
    let mut lights = Lights::new(two_frames(RED, GREEN, 100), 0);
    lights.tick(150);
    assert_eq!(lights.get(), GREEN);
    lights.set_pattern(two_frames(RED, GREEN, 100), 1000);
    assert_eq!(lights.get(), RED);
    lights.tick(1050);
    assert_eq!(lights.get(), RED);
    lights.tick(1100);
    assert_eq!(lights.get(), GREEN);
}

#[test]
fn drift_correction_exact_steps() {
    // Irregular increments summing to exactly twice the frame duration
    // advance the cursor by exactly two steps, however they are chunked.
    let mut chunked = Lights::new(two_frames(RED, GREEN, 100), 0);
    let mut single = Lights::new(two_frames(RED, GREEN, 100), 0);
    for now in [30, 70, 130, 170, 199, 200] {
        chunked.tick(now);
    }
    single.tick(200);
    assert_eq!(chunked.get(), RED);
    assert_eq!(chunked.get(), single.get());
    // The remainders also agree afterwards: both engines stay in lockstep.
    for now in [250, 299, 300, 450] {
        assert_eq!(chunked.tick(now), single.tick(now));
        assert_eq!(chunked.get(), single.get());
    }
}

#[test]
fn empty_custom_renders_black() {
    let mut lights = Lights::new(Pattern::Solid(RED), 0);
    lights.tick(0);
    lights.set_pattern(Pattern::Custom(vec![]), 10);
    assert_eq!(lights.get(), BLACK);
    assert_eq!(lights.tick(10), Some(BLACK));
    assert_eq!(lights.tick(500), None);
    assert_eq!(lights.get(), BLACK);
}

#[test]
fn zero_length_cycle_shows_current_frame() {
    let mut lights = Lights::new(two_frames(RED, GREEN, 0), 0);
    assert_eq!(lights.tick(50), Some(RED));
    assert_eq!(lights.tick(100), None);
    assert_eq!(lights.get(), RED);
}

#[test]
fn get_pattern_returns_current() {
    let p = two_frames(RED, GREEN, 100);
    let mut lights = Lights::new(p.clone(), 0);
    assert_eq!(lights.get_pattern(), &p);
    lights.set(RED);
    assert_eq!(lights.get_pattern(), &Pattern::Solid(RED));
}

#[test]
fn scenario_rest_roundtrip() {
    // Start solid pink; the REST surface reads it as #f29bd4; a custom
    // pattern is applied; after one frame's worth of ticking the second
    // frame shows.
    let pink = Color { red: 242, green: 155, blue: 212 };
    let mut lights = Lights::new(Pattern::Solid(pink), 0);
    lights.tick(0);
    assert_eq!(lights.get().format(), "#f29bd4");
    let frames = vec![
        Frame { color: Color::from_str("#ff0000").unwrap(), duration_ms: 50 },
        Frame { color: Color::from_str("#00ff00").unwrap(), duration_ms: 50 },
    ];
    lights.set_pattern(Pattern::Custom(frames), 1000);
    lights.tick(1050);
    assert_eq!(lights.get().format(), "#00ff00");
}

#[test]
fn stale_clock_is_tolerated() {
    // A tick dated before the cursor's time origin counts as zero elapsed
    // time rather than failing.
    let mut lights = Lights::new(two_frames(RED, GREEN, 100), 1000);
    lights.tick(500);
    assert_eq!(lights.get(), RED);
    lights.tick(1100);
    assert_eq!(lights.get(), GREEN);
}

#[test]
fn pattern_is_valid_checks_total() {
    assert!(pattern_is_valid(&Pattern::Off));
    assert!(pattern_is_valid(&Pattern::Solid(RED)));
    assert!(pattern_is_valid(&two_frames(RED, GREEN, u64::MAX / 2)));
    assert!(!pattern_is_valid(&Pattern::Custom(vec![
        Frame { color: RED, duration_ms: u64::MAX },
        Frame { color: GREEN, duration_ms: 1 },
    ])));
}
