//! The input-event model of the extended protocol, and the dispatch plans
//! that turn a decoded event into the exact sequence of injector and
//! volume operations to perform.
//!
//! The raw injection mechanism is an outside capability; the library
//! decides *what* to inject.  Each `plan` function returns the operation
//! sequence its event calls for, pinned by a specification, and the caller
//! executes the operations in order.

use vstd::prelude::*;
use crate::volume::{spec_db_bounds_ok, spec_to_db, DeciBel, VolumeLevel, VolumeRange};

verus! {

/// A key on the keyboard, as the wire protocol names keys.  `OptionKey`
/// is the macOS option key, carried on the wire under the name `Option`.
#[derive(Debug, Clone, Copy, PartialEq, Eq, Structural)]
pub enum Key {
    Alt,
    Backspace,
    CapsLock,
    Command,
    Control,
    Delete,
    DownArrow,
    End,
    Escape,
    F1,
    F10,
    F11,
    F12,
    F2,
    F3,
    F4,
    F5,
    F6,
    F7,
    F8,
    F9,
    Home,
    LeftArrow,
    Meta,
    OptionKey,
    PageDown,
    PageUp,
    Return,
    RightArrow,
    Shift,
    Space,
    Super,
    Tab,
    UpArrow,
    Windows,
    Layout(char),
    Raw(u16),
}

/// A mouse button, as the wire protocol names buttons.
#[derive(Debug, Clone, Copy, PartialEq, Eq, Structural)]
pub enum MouseButton {
    Left,
    Middle,
    Right,
    ScrollUp,
    ScrollDown,
    ScrollLeft,
    ScrollRight,
}

/// A duration as the wire carries it: whole seconds and a sub-second
/// nanosecond part.
#[derive(Debug, Clone, Copy, PartialEq, Eq, Structural)]
pub struct EventDuration {
    pub secs: u64,
    pub nanos: u32,
}

/// What to do with a mouse button: press, release, or press-wait-release.
#[derive(Debug, Clone, Copy, PartialEq, Eq, Structural)]
pub enum MouseButtonAction {
    Down,
    Up,
    Click(EventDuration),
}

/// A mouse-button event.
#[derive(Debug, Clone, Copy, PartialEq, Eq, Structural)]
pub struct MouseButtonEvent {
    pub action: MouseButtonAction,
    pub button: MouseButton,
}

/// Whether a mouse move is relative to the pointer or absolute.
#[derive(Debug, Clone, Copy, PartialEq, Eq, Structural)]
pub enum MouseMoveOrigin {
    Rel,
    Abs,
}

/// A mouse-move event.
#[derive(Debug, Clone, Copy, PartialEq, Eq, Structural)]
pub struct MouseMoveEvent {
    pub origin: MouseMoveOrigin,
    pub x: i32,
    pub y: i32,
}

/// The axis of a mouse scroll.
#[derive(Debug, Clone, Copy, PartialEq, Eq, Structural)]
pub enum MouseScrollDir {
    Ver,
    Hor,
}

/// A mouse-scroll event.
#[derive(Debug, Clone, Copy, PartialEq, Eq, Structural)]
pub struct MouseScrollEvent {
    pub dir: MouseScrollDir,
    pub len: i32,
}

/// Any mouse event.
#[derive(Debug, Clone, Copy, PartialEq, Eq, Structural)]
pub enum MouseEvent {
    Button(MouseButtonEvent),
    Move(MouseMoveEvent),
    Scroll(MouseScrollEvent),
}

/// What to do with a key: release, press, or press-wait-release.
#[derive(Debug, Clone, Copy, PartialEq, Eq, Structural)]
pub enum KeyboardAction {
    Up,
    Down,
    Click(EventDuration),
}

/// A keyboard event.
#[derive(Debug, Clone, Copy, PartialEq, Eq, Structural)]
pub struct KeyboardEvent {
    pub action: KeyboardAction,
    pub key: Key,
}

/// One decoded input event of the extended protocol.
#[derive(Debug, Clone, Copy, PartialEq, Eq, Structural)]
pub enum InputEvent {
    Mouse(MouseEvent),
    Keyboard(KeyboardEvent),
    Volume(VolumeLevel),
}

/// One primitive operation of the outside collaborators: an injector call,
/// a wait, or a device volume write.
#[derive(Debug, Clone, Copy, PartialEq, Eq, Structural)]
pub enum InjectorOp {
    KeyDown(Key),
    KeyUp(Key),
    MouseDown(MouseButton),
    MouseUp(MouseButton),
    MouseMoveRel(i32, i32),
    MouseMoveAbs(i32, i32),
    ScrollVertical(i32),
    ScrollHorizontal(i32),
    Sleep(EventDuration),
    SetVolumeDb(DeciBel),
}

/// The operations a keyboard event calls for.
pub open spec fn spec_plan_keyboard(e: KeyboardEvent) -> Seq<InjectorOp> {
    match e.action {
        KeyboardAction::Up => seq![InjectorOp::KeyUp(e.key)],
        KeyboardAction::Down => seq![InjectorOp::KeyDown(e.key)],
        KeyboardAction::Click(d) => seq![
            InjectorOp::KeyDown(e.key),
            InjectorOp::Sleep(d),
            InjectorOp::KeyUp(e.key),
        ],
    }
}

/// The operations a mouse event calls for.
pub open spec fn spec_plan_mouse(e: MouseEvent) -> Seq<InjectorOp> {
    match e {
        MouseEvent::Button(be) => match be.action {
            MouseButtonAction::Down => seq![InjectorOp::MouseDown(be.button)],
            MouseButtonAction::Up => seq![InjectorOp::MouseUp(be.button)],
            MouseButtonAction::Click(d) => seq![
                InjectorOp::MouseDown(be.button),
                InjectorOp::Sleep(d),
                InjectorOp::MouseUp(be.button),
            ],
        },
        MouseEvent::Move(me) => match me.origin {
            MouseMoveOrigin::Rel => seq![InjectorOp::MouseMoveRel(me.x, me.y)],
            MouseMoveOrigin::Abs => seq![InjectorOp::MouseMoveAbs(me.x, me.y)],
        },
        MouseEvent::Scroll(se) => match se.dir {
            MouseScrollDir::Ver => seq![InjectorOp::ScrollVertical(se.len)],
            MouseScrollDir::Hor => seq![InjectorOp::ScrollHorizontal(se.len)],
        },
    }
}

/// The operations an input event calls for, against a volume range: a
/// volume event becomes one device write of the clamped decibel value.
pub open spec fn spec_plan_event(e: InputEvent, range: VolumeRange) -> Seq<InjectorOp> {
    match e {
        InputEvent::Mouse(me) => spec_plan_mouse(me),
        InputEvent::Keyboard(ke) => spec_plan_keyboard(ke),
        InputEvent::Volume(level) => seq![
            InjectorOp::SetVolumeDb(DeciBel(spec_to_db(level, range.min_db, range.max_db) as i64)),
        ],
    }
}

impl KeyboardEvent {
    /// Plan this keyboard event: a click is press, wait, release.
    pub fn plan(&self) -> (r: Vec<InjectorOp>)
        ensures
            r@ == spec_plan_keyboard(*self),
    {
        let mut ops: Vec<InjectorOp> = Vec::new();
        match self.action {
            KeyboardAction::Up => {
                ops.push(InjectorOp::KeyUp(self.key));
            },
            KeyboardAction::Down => {
                ops.push(InjectorOp::KeyDown(self.key));
            },
            KeyboardAction::Click(d) => {
                ops.push(InjectorOp::KeyDown(self.key));
                ops.push(InjectorOp::Sleep(d));
                ops.push(InjectorOp::KeyUp(self.key));
            },
        }
        proof {
            assert(ops@ =~= spec_plan_keyboard(*self));
        }
        ops
    }
}

impl MouseEvent {
    /// Plan this mouse event: a click is press, wait, release.
    pub fn plan(&self) -> (r: Vec<InjectorOp>)
        ensures
            r@ == spec_plan_mouse(*self),
    {
        let mut ops: Vec<InjectorOp> = Vec::new();
        match *self {
            MouseEvent::Button(be) => {
                match be.action {
                    MouseButtonAction::Down => {
                        ops.push(InjectorOp::MouseDown(be.button));
                    },
                    MouseButtonAction::Up => {
                        ops.push(InjectorOp::MouseUp(be.button));
                    },
                    MouseButtonAction::Click(d) => {
                        ops.push(InjectorOp::MouseDown(be.button));
                        ops.push(InjectorOp::Sleep(d));
                        ops.push(InjectorOp::MouseUp(be.button));
                    },
                }
            },
            MouseEvent::Move(me) => {
                match me.origin {
                    MouseMoveOrigin::Rel => {
                        ops.push(InjectorOp::MouseMoveRel(me.x, me.y));
                    },
                    MouseMoveOrigin::Abs => {
                        ops.push(InjectorOp::MouseMoveAbs(me.x, me.y));
                    },
                }
            },
            MouseEvent::Scroll(se) => {
                match se.dir {
                    MouseScrollDir::Ver => {
                        ops.push(InjectorOp::ScrollVertical(se.len));
                    },
                    MouseScrollDir::Hor => {
                        ops.push(InjectorOp::ScrollHorizontal(se.len));
                    },
                }
            },
        }
        proof {
            assert(ops@ =~= spec_plan_mouse(*self));
        }
        ops
    }
}

impl InputEvent {
    /// The event's volume level, if it is a volume event, is within the
    /// magnitude the conversions accept.
    pub open spec fn wf(self) -> bool {
        match self {
            InputEvent::Volume(level) => level.wf(),
            _ => true,
        }
    }

    /// Plan this event against the device's volume range.
    pub fn plan(&self, range: &VolumeRange) -> (r: Vec<InjectorOp>)
        requires
            self.wf(),
            spec_db_bounds_ok(range.min_db, range.max_db),
        ensures
            r@ == spec_plan_event(*self, *range),
    {
        match *self {
            InputEvent::Mouse(me) => me.plan(),
            InputEvent::Keyboard(ke) => ke.plan(),
            InputEvent::Volume(level) => {
                let db = level.to_db(range.min_db, range.max_db);
                let mut ops: Vec<InjectorOp> = Vec::new();
                ops.push(InjectorOp::SetVolumeDb(db));
                proof {
                    assert(ops@ =~= spec_plan_event(*self, *range));
                }
                ops
            },
        }
    }
}

} // verus!
