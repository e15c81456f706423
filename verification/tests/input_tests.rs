use splat_renderer::input::{control_for_key, Axis, Control, InputState, Key, MoveStep};

fn held(s: &InputState) -> [bool; 10] {
    [
        s.is_forward_pressed,
        s.is_backward_pressed,
        s.is_left_pressed,
        s.is_right_pressed,
        s.is_up_pressed,
        s.is_down_pressed,
        s.is_yaw_left_pressed,
        s.is_yaw_right_pressed,
        s.is_pitch_up_pressed,
        s.is_pitch_down_pressed,
    ]
}

#[test]
fn default_holds_nothing() {
    let s = InputState::default();
    assert_eq!(held(&s), [false; 10]);
}

#[test]
fn key_bindings() {
    assert_eq!(control_for_key(Key::W), Some(Control::Forward));
    assert_eq!(control_for_key(Key::Up), Some(Control::Forward));
    assert_eq!(control_for_key(Key::S), Some(Control::Backward));
    assert_eq!(control_for_key(Key::Down), Some(Control::Backward));
    assert_eq!(control_for_key(Key::A), Some(Control::Left));
    assert_eq!(control_for_key(Key::Left), Some(Control::Left));
    assert_eq!(control_for_key(Key::D), Some(Control::Right));
    assert_eq!(control_for_key(Key::Right), Some(Control::Right));
    assert_eq!(control_for_key(Key::Space), Some(Control::Up));
    assert_eq!(control_for_key(Key::R), Some(Control::Up));
    assert_eq!(control_for_key(Key::LShift), Some(Control::Down));
    assert_eq!(control_for_key(Key::LControl), Some(Control::Down));
    assert_eq!(control_for_key(Key::F), Some(Control::Down));
    assert_eq!(control_for_key(Key::Q), Some(Control::YawLeft));
    assert_eq!(control_for_key(Key::E), Some(Control::YawRight));
    assert_eq!(control_for_key(Key::T), Some(Control::PitchUp));
    assert_eq!(control_for_key(Key::G), Some(Control::PitchDown));
    assert_eq!(control_for_key(Key::Other), None);
}

#[test]
fn press_and_release_forward() {
    let mut s = InputState::default();
    s.process_key(Some(Key::W), true);
    assert!(s.is_forward_pressed);
    let mut expected = [false; 10];
    expected[0] = true;
    assert_eq!(held(&s), expected);
    s.process_key(Some(Key::Up), false);
    assert_eq!(held(&s), [false; 10]);
}

#[test]
fn each_key_sets_only_its_control() {
    let keys = [
        (Key::S, 1),
        (Key::A, 2),
        (Key::D, 3),
        (Key::Space, 4),
        (Key::F, 5),
        (Key::Q, 6),
        (Key::E, 7),
        (Key::T, 8),
        (Key::G, 9),
    ];
    for (key, idx) in keys {
        let mut s = InputState::default();
        s.process_key(Some(key), true);
        let mut expected = [false; 10];
        expected[idx] = true;
        assert_eq!(held(&s), expected);
    }
}

#[test]
fn unbound_and_missing_keys_change_nothing() {
    let mut s = InputState::default();
    s.process_key(Some(Key::Q), true);
    let before = held(&s);
    s.process_key(Some(Key::Other), true);
    assert_eq!(held(&s), before);
    s.process_key(None, false);
    assert_eq!(held(&s), before);
}

#[test]
fn key_events_on_different_controls_commute() {
    let mut a = InputState::default();
    a.process_key(Some(Key::W), true);
    a.process_key(Some(Key::E), true);
    let mut b = InputState::default();
    b.process_key(Some(Key::E), true);
    b.process_key(Some(Key::W), true);
    assert_eq!(held(&a), held(&b));
}

#[test]
fn repeated_key_event_is_idempotent() {
    let mut a = InputState::default();
    a.process_key(Some(Key::LControl), true);
    let once = held(&a);
    a.process_key(Some(Key::LControl), true);
    assert_eq!(held(&a), once);
}

#[test]
fn set_holds_one_control() {
    let mut s = InputState::default();
    s.set(Control::PitchUp, true);
    assert!(s.is_pitch_up_pressed);
    s.set(Control::PitchUp, false);
    assert_eq!(held(&s), [false; 10]);
}

#[test]
fn no_movement_when_idle() {
    assert!(InputState::default().movement_steps().is_empty());
}

#[test]
fn forward_and_right_steps() {
    let mut s = InputState::default();
    s.process_key(Some(Key::D), true);
    s.process_key(Some(Key::W), true);
    assert_eq!(
        s.movement_steps(),
        vec![
            MoveStep { axis: Axis::Forward, position_sign: 1, target_sign: 1 },
            MoveStep { axis: Axis::Right, position_sign: 1, target_sign: -1 },
        ]
    );
}

#[test]
fn all_translation_steps_in_order() {
    let mut s = InputState::default();
    for key in [Key::F, Key::Space, Key::D, Key::A, Key::S, Key::W] {
        s.process_key(Some(key), true);
    }
    assert_eq!(
        s.movement_steps(),
        vec![
            MoveStep { axis: Axis::Forward, position_sign: 1, target_sign: 1 },
            MoveStep { axis: Axis::Forward, position_sign: -1, target_sign: -1 },
            MoveStep { axis: Axis::Right, position_sign: -1, target_sign: -1 },
            MoveStep { axis: Axis::Right, position_sign: 1, target_sign: -1 },
            MoveStep { axis: Axis::WorldUp, position_sign: 1, target_sign: 1 },
            MoveStep { axis: Axis::WorldUp, position_sign: -1, target_sign: -1 },
        ]
    );
}

#[test]
fn steps_without_right_keep_direction() {
    let mut s = InputState::default();
    for key in [Key::W, Key::A, Key::R, Key::LShift] {
        s.process_key(Some(key), true);
    }
    let steps = s.movement_steps();
    assert_eq!(steps.len(), 4);
    assert!(steps.iter().all(|st| st.position_sign == st.target_sign));
}

#[test]
fn yaw_and_pitch_directions() {
    let mut s = InputState::default();
    assert_eq!(s.yaw_direction(), 0);
    assert_eq!(s.pitch_direction(), 0);
    s.process_key(Some(Key::E), true);
    s.process_key(Some(Key::G), true);
    assert_eq!(s.yaw_direction(), -1);
    assert_eq!(s.pitch_direction(), -1);
    s.process_key(Some(Key::Q), true);
    s.process_key(Some(Key::T), true);
    assert_eq!(s.yaw_direction(), 1);
    assert_eq!(s.pitch_direction(), 1);
    s.process_key(Some(Key::E), false);
    s.process_key(Some(Key::G), false);
    assert_eq!(s.yaw_direction(), 1);
    assert_eq!(s.pitch_direction(), 1);
}
