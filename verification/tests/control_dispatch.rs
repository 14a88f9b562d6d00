use lumen::color::Color;
use lumen::control::{apply_control, dispatch, ControlAction, ControlArg};
use lumen::lights::Lights;
use lumen::pattern::Pattern;

#[test]
fn color_int_triplet() {
    let args = vec![ControlArg::Int(255), ControlArg::Int(0), ControlArg::Int(128)];
    assert_eq!(
        dispatch("/color", &args),
        ControlAction::SetColor(Color { red: 255, green: 0, blue: 128 })
    );
}

#[test]
fn color_int_triplet_truncates() {
    let args = vec![ControlArg::Int(300), ControlArg::Int(-1), ControlArg::Int(512)];
    assert_eq!(
        dispatch("/color", &args),
        ControlAction::SetColor(Color { red: 44, green: 255, blue: 0 })
    );
}

#[test]
fn color_float_and_double_triplets() {
    let args = vec![ControlArg::Float(10), ControlArg::Float(20), ControlArg::Float(30)];
    assert_eq!(
        dispatch("/color", &args),
        ControlAction::SetColor(Color { red: 10, green: 20, blue: 30 })
    );
    let args = vec![ControlArg::Double(1), ControlArg::Double(2), ControlArg::Double(3)];
    assert_eq!(
        dispatch("/color", &args),
        ControlAction::SetColor(Color { red: 1, green: 2, blue: 3 })
    );
}

#[test]
fn color_packed_argument() {
    let c = Color { red: 9, green: 8, blue: 7 };
    let args = vec![ControlArg::PackedColor(c)];
    assert_eq!(dispatch("/color", &args), ControlAction::SetColor(c));
}

#[test]
fn color_mixed_triplet_dropped() {
    let args = vec![ControlArg::Int(1), ControlArg::Float(2), ControlArg::Int(3)];
    assert_eq!(dispatch("/color", &args), ControlAction::Ignore);
}

#[test]
fn color_wrong_arity_dropped() {
    assert_eq!(dispatch("/color", &vec![]), ControlAction::Ignore);
    let args = vec![ControlArg::Int(1), ControlArg::Int(2)];
    assert_eq!(dispatch("/color", &args), ControlAction::Ignore);
    let args = vec![ControlArg::Other];
    assert_eq!(dispatch("/color", &args), ControlAction::Ignore);
}

#[test]
fn pattern_off_no_args() {
    assert_eq!(dispatch("/pattern/off", &vec![]), ControlAction::SetPattern(Pattern::Off));
    let args = vec![ControlArg::Int(1)];
    assert_eq!(dispatch("/pattern/off", &args), ControlAction::Ignore);
}

#[test]
fn pattern_solid_triplet() {
    let args = vec![ControlArg::Int(1), ControlArg::Int(2), ControlArg::Int(3)];
    assert_eq!(
        dispatch("/pattern/solid", &args),
        ControlAction::SetPattern(Pattern::Solid(Color { red: 1, green: 2, blue: 3 }))
    );
}

#[test]
fn unknown_address_dropped() {
    let args = vec![ControlArg::Int(1), ControlArg::Int(2), ControlArg::Int(3)];
    assert_eq!(dispatch("/pattern/custom", &args), ControlAction::Ignore);
    assert_eq!(dispatch("", &args), ControlAction::Ignore);
    assert_eq!(dispatch("/colors", &args), ControlAction::Ignore);
}

#[test]
fn apply_control_mutates_engine() {
    let mut lights = Lights::new(Pattern::Off, 0);
    let args = vec![ControlArg::Int(10), ControlArg::Int(20), ControlArg::Int(30)];
    apply_control(&mut lights, "/color", &args, 5);
    assert_eq!(lights.get(), Color { red: 10, green: 20, blue: 30 });
    apply_control(&mut lights, "/pattern/off", &vec![], 6);
    assert_eq!(lights.get(), Color { red: 0, green: 0, blue: 0 });
    apply_control(&mut lights, "/nope", &vec![], 7);
    assert_eq!(lights.get(), Color { red: 0, green: 0, blue: 0 });
}
