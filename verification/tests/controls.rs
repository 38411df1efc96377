use tile_wfc::controls::{
    modifiers_to_string, Action, ControlState, Controls, Modifiers, MouseButton,
};

const SHIFT: Modifiers = Modifiers { shift: true, control: false, alt: false, super_key: false };

fn held(state: &ControlState) -> Vec<bool> {
    vec![
        state.camera_forward,
        state.camera_backward,
        state.camera_left,
        state.camera_right,
        state.camera_up,
        state.camera_down,
        state.camera_rotate_left,
        state.camera_rotate_right,
        state.camera_rotate_up,
        state.camera_rotate_down,
        state.drag_mouse,
    ]
}

#[test]
fn each_camera_action_drives_its_own_control() {
    let actions = [
        Action::CameraMoveForward,
        Action::CameraMoveBackward,
        Action::CameraMoveLeft,
        Action::CameraMoveRight,
        Action::CameraMoveUp,
        Action::CameraMoveDown,
        Action::CameraRotateLeft,
        Action::CameraRotateRight,
        Action::CameraRotateUp,
        Action::CameraRotateDown,
        Action::DragMouse,
    ];
    for (place, action) in actions.iter().enumerate() {
        let mut state = ControlState::default();
        assert_eq!(held(&state), vec![false; 11]);
        state.action_updated(action, true);
        let mut expected = vec![false; 11];
        expected[place] = true;
        assert_eq!(held(&state), expected, "{:?}", action);
        state.action_updated(action, false);
        assert_eq!(state, ControlState::default());
    }
}

#[test]
fn window_actions_leave_the_controls_alone() {
    for action in [
        Action::CloseWindow,
        Action::ToggleImeInput,
        Action::ToggleDecorations,
        Action::Minimize,
        Action::PrintHelp,
        Action::DragWindow,
        Action::DragResizeWindow,
        Action::RequestResize,
    ] {
        let mut state = ControlState::default();
        state.action_updated(&Action::CameraMoveUp, true);
        let before = state;
        state.action_updated(&action, true);
        assert_eq!(state, before);
    }
}

#[test]
fn first_bindings_move_the_camera() {
    let controls = Controls::new();
    let none = Modifiers::empty();
    for (key, action) in [
        ("W", Action::CameraMoveForward),
        ("S", Action::CameraMoveBackward),
        ("A", Action::CameraMoveLeft),
        ("D", Action::CameraMoveRight),
        ("Q", Action::CameraMoveDown),
        ("E", Action::CameraMoveUp),
        ("LEFT", Action::CameraRotateLeft),
        ("RIGHT", Action::CameraRotateRight),
        ("UP", Action::CameraRotateUp),
        ("DOWN", Action::CameraRotateDown),
    ] {
        assert_eq!(controls.parse_key_binding(key, &none), Some(action));
        assert_eq!(controls.parse_key_binding(key, &SHIFT), None);
    }
    assert_eq!(controls.parse_key_binding("w", &none), None);
    assert_eq!(controls.parse_key_binding("", &none), None);
    assert_eq!(controls.parse_mouse_binding(MouseButton::Left, &none), Some(Action::DragMouse));
    assert_eq!(controls.parse_mouse_binding(MouseButton::Right, &none), None);
    assert_eq!(controls.parse_mouse_binding(MouseButton::Left, &SHIFT), None);
}

#[test]
fn the_first_of_several_bindings_counts() {
    let mut controls = Controls::default();
    controls.add_key_binding("W", Action::CloseWindow, Modifiers::empty());
    controls.add_key_binding("W", Action::Minimize, SHIFT);
    controls.add_key_binding("W", Action::PrintHelp, SHIFT);
    controls.add_mouse_binding(MouseButton::Other(9), Action::DragWindow, SHIFT);
    assert_eq!(
        controls.parse_key_binding("W", &Modifiers::empty()),
        Some(Action::CameraMoveForward)
    );
    assert_eq!(controls.parse_key_binding("W", &SHIFT), Some(Action::Minimize));
    assert_eq!(
        controls.parse_mouse_binding(MouseButton::Other(9), &SHIFT),
        Some(Action::DragWindow)
    );
    assert_eq!(controls.parse_mouse_binding(MouseButton::Other(8), &SHIFT), None);
    assert_eq!(controls.key_bindings.len(), 13);
    assert_eq!(controls.mouse_bindings.len(), 2);
}

#[test]
fn processing_a_binding_sets_its_control() {
    let controls = Controls::new();
    let none = Modifiers::empty();
    let mut state = ControlState::default();
    assert_eq!(
        controls.process_key_binding(&mut state, "LEFT", &none, true),
        Some(Action::CameraRotateLeft)
    );
    assert!(state.camera_rotate_left);
    assert_eq!(controls.process_key_binding(&mut state, "X", &none, true), None);
    assert_eq!(
        controls.process_mouse_binding(&mut state, MouseButton::Left, &none, true),
        Some(Action::DragMouse)
    );
    assert!(state.drag_mouse && state.camera_rotate_left);
    assert_eq!(
        controls.process_key_binding(&mut state, "LEFT", &none, false),
        Some(Action::CameraRotateLeft)
    );
    assert!(!state.camera_rotate_left);
    assert_eq!(
        controls.process_mouse_binding(&mut state, MouseButton::Middle, &none, false),
        None
    );
    assert!(state.drag_mouse);
}

#[test]
fn modifiers_are_written_in_a_fixed_order() {
    assert_eq!(modifiers_to_string(Modifiers::empty()), "");
    assert_eq!(modifiers_to_string(SHIFT), "Shift+");
    assert_eq!(
        modifiers_to_string(Modifiers { shift: true, control: true, alt: true, super_key: true }),
        "Super+Alt+Ctrl+Shift+"
    );
    assert_eq!(
        modifiers_to_string(Modifiers { shift: false, control: true, alt: false, super_key: true }),
        "Super+Ctrl+"
    );
}
