//! Key and mouse bindings, and the state of the controls that they drive.

use vstd::prelude::*;
use vstd::string::StringExecFns;
use crate::text::str_eq;

verus! {

/// What a key or a mouse button can ask for.
#[derive(Debug, Clone, Copy, PartialEq, Eq, Structural)]
pub enum Action {
    CameraMoveForward,
    CameraMoveBackward,
    CameraMoveLeft,
    CameraMoveRight,
    CameraMoveUp,
    CameraMoveDown,
    CameraRotateLeft,
    CameraRotateRight,
    CameraRotateUp,
    CameraRotateDown,
    DragMouse,
    //Window
    CloseWindow,
    ToggleImeInput,
    ToggleDecorations,
    Minimize,
    PrintHelp,
    DragWindow,
    DragResizeWindow,
    RequestResize,
}

/// The modifier keys that are held down.
#[derive(Debug, Clone, Copy, PartialEq, Eq, Structural)]
pub struct Modifiers {
    pub shift: bool,
    pub control: bool,
    pub alt: bool,
    pub super_key: bool,
}

/// A button of the mouse.
#[derive(Debug, Clone, Copy, PartialEq, Eq, Structural)]
pub enum MouseButton {
    Left,
    Right,
    Middle,
    Back,
    Forward,
    Other(u16),
}

/// A trigger, the modifiers that must be held with it, and what the two ask for.
#[derive(Debug, Clone)]
pub struct Binding<T> {
    pub trigger: T,
    pub mods: Modifiers,
    pub action: Action,
}

/// The bindings of the mouse buttons and of the keys. Where several bindings
/// have one trigger and one set of modifiers, the first of them counts.
#[derive(Debug, Clone)]
pub struct Controls {
    pub mouse_bindings: Vec<Binding<MouseButton>>,
    pub key_bindings: Vec<Binding<&'static str>>,
}

/// Which of the camera's controls are held at the moment.
#[derive(Debug, Clone, Copy, PartialEq, Eq, Structural)]
pub struct ControlState {
    pub camera_forward: bool,
    pub camera_backward: bool,
    pub camera_left: bool,
    pub camera_right: bool,
    pub camera_up: bool,
    pub camera_down: bool,
    pub camera_rotate_left: bool,
    pub camera_rotate_right: bool,
    pub camera_rotate_up: bool,
    pub camera_rotate_down: bool,
    pub drag_mouse: bool,
}

impl Modifiers {
    /// No modifier is held.
    pub open spec fn none() -> Modifiers {
        Modifiers { shift: false, control: false, alt: false, super_key: false }
    }

    pub fn empty() -> (mods: Modifiers)
        ensures
            mods == Modifiers::none(),
    {
        Modifiers { shift: false, control: false, alt: false, super_key: false }
    }
}

/// The binding of the key `key` with no modifier to `action`.
pub open spec fn plain_key(key: &'static str, action: Action) -> Binding<&'static str> {
    Binding { trigger: key, mods: Modifiers::none(), action }
}

/// The key bindings that the controls start with.
pub open spec fn default_key_bindings() -> Seq<Binding<&'static str>> {
    seq![
        plain_key("W", Action::CameraMoveForward),
        plain_key("S", Action::CameraMoveBackward),
        plain_key("A", Action::CameraMoveLeft),
        plain_key("D", Action::CameraMoveRight),
        plain_key("Q", Action::CameraMoveDown),
        plain_key("E", Action::CameraMoveUp),
        plain_key("LEFT", Action::CameraRotateLeft),
        plain_key("RIGHT", Action::CameraRotateRight),
        plain_key("UP", Action::CameraRotateUp),
        plain_key("DOWN", Action::CameraRotateDown),
    ]
}

/// The mouse bindings that the controls start with: the left button drags.
pub open spec fn default_mouse_bindings() -> Seq<Binding<MouseButton>> {
    seq![Binding { trigger: MouseButton::Left, mods: Modifiers::none(), action: Action::DragMouse }]
}

/// Whether a key binding is triggered by the key `key` with the modifiers `mods`.
pub open spec fn key_triggers(
    binding: Binding<&'static str>,
    key: Seq<char>,
    mods: Modifiers,
) -> bool {
    binding.trigger@ == key && binding.mods == mods
}

/// Whether a mouse binding is triggered by `button` with the modifiers `mods`.
pub open spec fn button_triggers(
    binding: Binding<MouseButton>,
    button: MouseButton,
    mods: Modifiers,
) -> bool {
    binding.trigger == button && binding.mods == mods
}

/// The action of the first of `bindings` that the key triggers.
pub open spec fn key_action(
    bindings: Seq<Binding<&'static str>>,
    key: Seq<char>,
    mods: Modifiers,
) -> Option<Action>
    decreases bindings.len(),
{
    if bindings.len() == 0 {
        None
    } else if key_triggers(bindings.first(), key, mods) {
        Some(bindings.first().action)
    } else {
        key_action(bindings.drop_first(), key, mods)
    }
}

/// The action of the first of `bindings` that the button triggers.
pub open spec fn button_action(
    bindings: Seq<Binding<MouseButton>>,
    button: MouseButton,
    mods: Modifiers,
) -> Option<Action>
    decreases bindings.len(),
{
    if bindings.len() == 0 {
        None
    } else if button_triggers(bindings.first(), button, mods) {
        Some(bindings.first().action)
    } else {
        button_action(bindings.drop_first(), button, mods)
    }
}

/// The text that stands before a trigger for the modifiers `mods`.
pub open spec fn modifiers_text(mods: Modifiers) -> Seq<char> {
    (if mods.super_key {
        "Super+"@
    } else {
        Seq::empty()
    }) + (if mods.alt {
        "Alt+"@
    } else {
        Seq::empty()
    }) + (if mods.control {
        "Ctrl+"@
    } else {
        Seq::empty()
    }) + (if mods.shift {
        "Shift+"@
    } else {
        Seq::empty()
    })
}

/// A control that `driver` drives, after `action` was set to `active`: it
/// takes `active` where `action` is its driver and stays as it is otherwise.
pub open spec fn driven(driver: Action, held: bool, action: Action, active: bool) -> bool {
    if action == driver {
        active
    } else {
        held
    }
}

impl ControlState {
    /// The state with the control that `action` drives set to `active`. An
    /// action that drives no control of the camera leaves the state as it is.
    pub open spec fn updated(self, action: Action, active: bool) -> ControlState {
        ControlState {
            camera_forward: driven(Action::CameraMoveForward, self.camera_forward, action, active),
            camera_backward: driven(
                Action::CameraMoveBackward,
                self.camera_backward,
                action,
                active,
            ),
            camera_left: driven(Action::CameraMoveLeft, self.camera_left, action, active),
            camera_right: driven(Action::CameraMoveRight, self.camera_right, action, active),
            camera_up: driven(Action::CameraMoveUp, self.camera_up, action, active),
            camera_down: driven(Action::CameraMoveDown, self.camera_down, action, active),
            camera_rotate_left: driven(
                Action::CameraRotateLeft,
                self.camera_rotate_left,
                action,
                active,
            ),
            camera_rotate_right: driven(
                Action::CameraRotateRight,
                self.camera_rotate_right,
                action,
                active,
            ),
            camera_rotate_up: driven(
                Action::CameraRotateUp,
                self.camera_rotate_up,
                action,
                active,
            ),
            camera_rotate_down: driven(
                Action::CameraRotateDown,
                self.camera_rotate_down,
                action,
                active,
            ),
            drag_mouse: driven(Action::DragMouse, self.drag_mouse, action, active),
        }
    }

    /// No control is held.
    pub open spec fn idle() -> ControlState {
        ControlState {
            camera_forward: false,
            camera_backward: false,
            camera_left: false,
            camera_right: false,
            camera_up: false,
            camera_down: false,
            camera_rotate_left: false,
            camera_rotate_right: false,
            camera_rotate_up: false,
            camera_rotate_down: false,
            drag_mouse: false,
        }
    }

    pub fn action_updated(&mut self, action: &Action, active: bool)
        ensures
            *final(self) == old(self).updated(*action, active),
    {
        let mut state = *self;
        match action {
            Action::CameraMoveForward => {
                state.camera_forward = active;
            },
            Action::CameraMoveBackward => {
                state.camera_backward = active;
            },
            Action::CameraMoveLeft => {
                state.camera_left = active;
            },
            Action::CameraMoveRight => {
                state.camera_right = active;
            },
            Action::CameraMoveUp => {
                state.camera_up = active;
            },
            Action::CameraMoveDown => {
                state.camera_down = active;
            },
            Action::CameraRotateLeft => {
                state.camera_rotate_left = active;
            },
            Action::CameraRotateRight => {
                state.camera_rotate_right = active;
            },
            Action::CameraRotateUp => {
                state.camera_rotate_up = active;
            },
            Action::CameraRotateDown => {
                state.camera_rotate_down = active;
            },
            Action::DragMouse => {
                state.drag_mouse = active;
            },
            _ => {},
        }
        *self = state;
    }
}

impl Default for ControlState {
    fn default() -> (state: Self)
        ensures
            state == ControlState::idle(),
    {
        ControlState {
            camera_forward: false,
            camera_backward: false,
            camera_left: false,
            camera_right: false,
            camera_up: false,
            camera_down: false,
            camera_rotate_left: false,
            camera_rotate_right: false,
            camera_rotate_up: false,
            camera_rotate_down: false,
            drag_mouse: false,
        }
    }
}

impl Default for Controls {
    fn default() -> (controls: Self)
        ensures
            controls.mouse_bindings@ == default_mouse_bindings(),
            controls.key_bindings@ == default_key_bindings(),
    {
        let mut mouse_bindings: Vec<Binding<MouseButton>> = Vec::new();
        mouse_bindings.push(
            Binding { trigger: MouseButton::Left, mods: Modifiers::empty(), action: Action::DragMouse },
        );
        let mut key_bindings: Vec<Binding<&'static str>> = Vec::new();
        key_bindings.push(
            Binding { trigger: "W", mods: Modifiers::empty(), action: Action::CameraMoveForward },
        );
        key_bindings.push(
            Binding { trigger: "S", mods: Modifiers::empty(), action: Action::CameraMoveBackward },
        );
        key_bindings.push(
            Binding { trigger: "A", mods: Modifiers::empty(), action: Action::CameraMoveLeft },
        );
        key_bindings.push(
            Binding { trigger: "D", mods: Modifiers::empty(), action: Action::CameraMoveRight },
        );
        key_bindings.push(
            Binding { trigger: "Q", mods: Modifiers::empty(), action: Action::CameraMoveDown },
        );
        key_bindings.push(
            Binding { trigger: "E", mods: Modifiers::empty(), action: Action::CameraMoveUp },
        );
        key_bindings.push(
            Binding { trigger: "LEFT", mods: Modifiers::empty(), action: Action::CameraRotateLeft },
        );
        key_bindings.push(
            Binding {
                trigger: "RIGHT",
                mods: Modifiers::empty(),
                action: Action::CameraRotateRight,
            },
        );
        key_bindings.push(
            Binding { trigger: "UP", mods: Modifiers::empty(), action: Action::CameraRotateUp },
        );
        key_bindings.push(
            Binding { trigger: "DOWN", mods: Modifiers::empty(), action: Action::CameraRotateDown },
        );
        assert(mouse_bindings@ =~= default_mouse_bindings());
        assert(key_bindings@ =~= default_key_bindings());
        Self { mouse_bindings, key_bindings }
    }
}

impl Controls {
    /// The controls with their first bindings: `W`, `S`, `A`, `D`, `Q`, `E`
    /// and the arrow keys for the camera, the left mouse button to drag.
    pub fn new() -> (controls: Self)
        ensures
            controls.mouse_bindings@ == default_mouse_bindings(),
            controls.key_bindings@ == default_key_bindings(),
    {
        Self::default()
    }

    /// Adds a binding behind those that are there.
    pub fn add_mouse_binding(&mut self, key: MouseButton, action: Action, mods: Modifiers)
        ensures
            final(self).mouse_bindings@ == old(self).mouse_bindings@.push(
                Binding { trigger: key, mods, action },
            ),
            final(self).key_bindings@ == old(self).key_bindings@,
    {
        self.mouse_bindings.push(Binding { trigger: key, action, mods });
    }

    /// Adds a binding behind those that are there.
    pub fn add_key_binding(&mut self, key: &'static str, action: Action, mods: Modifiers)
        ensures
            final(self).key_bindings@ == old(self).key_bindings@.push(
                Binding { trigger: key, mods, action },
            ),
            final(self).mouse_bindings@ == old(self).mouse_bindings@,
    {
        self.key_bindings.push(Binding { trigger: key, action, mods });
    }

    /// The action that the key `key` asks for while `mods` are held.
    pub fn parse_key_binding(&self, key: &str, mods: &Modifiers) -> (action: Option<Action>)
        ensures
            action == key_action(self.key_bindings@, key@, *mods),
    {
        let mut i: usize = 0;
        assert(self.key_bindings@.skip(0) =~= self.key_bindings@);
        while i < self.key_bindings.len()
            invariant
                i <= self.key_bindings.len(),
                key_action(self.key_bindings@, key@, *mods) == key_action(
                    self.key_bindings@.skip(i as int),
                    key@,
                    *mods,
                ),
            decreases self.key_bindings.len() - i,
        {
            let binding = &self.key_bindings[i];
            proof {
                let rest = self.key_bindings@.skip(i as int);
                assert(rest.first() == *binding);
                assert(rest.drop_first() =~= self.key_bindings@.skip(i + 1));
            }
            if str_eq(binding.trigger, key) && binding.mods == *mods {
                return Some(binding.action);
            }
            i += 1;
        }
        None
    }

    /// Finds the action that the key asks for and, if there is one, sets the
    /// control that it drives to `is_pressed`.
    pub fn process_key_binding(
        &self,
        control_state: &mut ControlState,
        key: &str,
        mods: &Modifiers,
        is_pressed: bool,
    ) -> (action: Option<Action>)
        ensures
            action == key_action(self.key_bindings@, key@, *mods),
            *final(control_state) == match action {
                Some(found) => old(control_state).updated(found, is_pressed),
                None => *old(control_state),
            },
    {
        match self.parse_key_binding(key, mods) {
            Some(action) => {
                control_state.action_updated(&action, is_pressed);
                Some(action)
            },
            None => None,
        }
    }

    /// The action that the mouse button `button` asks for while `mods` are held.
    pub fn parse_mouse_binding(
        &self,
        button: MouseButton,
        mods: &Modifiers,
    ) -> (action: Option<Action>)
        ensures
            action == button_action(self.mouse_bindings@, button, *mods),
    {
        let mut i: usize = 0;
        assert(self.mouse_bindings@.skip(0) =~= self.mouse_bindings@);
        while i < self.mouse_bindings.len()
            invariant
                i <= self.mouse_bindings.len(),
                button_action(self.mouse_bindings@, button, *mods) == button_action(
                    self.mouse_bindings@.skip(i as int),
                    button,
                    *mods,
                ),
            decreases self.mouse_bindings.len() - i,
        {
            let binding = &self.mouse_bindings[i];
            proof {
                let rest = self.mouse_bindings@.skip(i as int);
                assert(rest.first() == *binding);
                assert(rest.drop_first() =~= self.mouse_bindings@.skip(i + 1));
            }
            if binding.trigger == button && binding.mods == *mods {
                return Some(binding.action);
            }
            i += 1;
        }
        None
    }

    /// Finds the action that the mouse button asks for and, if there is one,
    /// sets the control that it drives to `is_pressed`.
    pub fn process_mouse_binding(
        &self,
        control_state: &mut ControlState,
        button: MouseButton,
        mods: &Modifiers,
        is_pressed: bool,
    ) -> (action: Option<Action>)
        ensures
            action == button_action(self.mouse_bindings@, button, *mods),
            *final(control_state) == match action {
                Some(found) => old(control_state).updated(found, is_pressed),
                None => *old(control_state),
            },
    {
        match self.parse_mouse_binding(button, mods) {
            Some(action) => {
                control_state.action_updated(&action, is_pressed);
                Some(action)
            },
            None => None,
        }
    }
}

/// The modifiers as they are written before a trigger: each one that is
/// held, followed by `+`, in the order Super, Alt, Ctrl, Shift.
pub fn modifiers_to_string(mods: Modifiers) -> (mods_line: String)
    ensures
        mods_line@ == modifiers_text(mods),
{
    let mut mods_line = String::new();
    // Always add + since it's printed as a part of the bindings.
    if mods.super_key {
        mods_line.append("Super+");
    }
    if mods.alt {
        mods_line.append("Alt+");
    }
    if mods.control {
        mods_line.append("Ctrl+");
    }
    if mods.shift {
        mods_line.append("Shift+");
    }
    assert(mods_line@ =~= modifiers_text(mods));
    mods_line
}

} // verus!
