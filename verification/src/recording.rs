//! What a macro recording keeps of a window event: the injectable event
//! that replays it.
use vstd::prelude::*;

use crate::events::{ElementState, MouseButtons};
use crate::inject::{button_bits, state_of, InjectElementState, InjectMouseButton};
use crate::key_mapping::{VirtualKey, VirtualKeyView};
use crate::window::{UiEvent, UiEventView};

verus! {

/// The injectable event that replays a recorded window event. A key press
/// or release keeps its logical key; it is replayed with no physical key,
/// not repeated, at the standard location, with no text.
#[derive(Debug)]
pub enum RecordedInput {
    CursorLeft,
    MouseInput { button: InjectMouseButton, state: InjectElementState },
    RawKeyboardInput { key: VirtualKey, state: InjectElementState },
    Chars { chars: String },
}

/// A recorded input, its texts as character sequences.
pub enum RecordedInputView {
    CursorLeft,
    MouseInput { button: InjectMouseButton, state: InjectElementState },
    RawKeyboardInput { key: VirtualKeyView, state: InjectElementState },
    Chars { chars: Seq<char> },
}

impl View for RecordedInput {
    type V = RecordedInputView;

    open spec fn view(&self) -> RecordedInputView {
        match self {
            RecordedInput::CursorLeft => RecordedInputView::CursorLeft,
            RecordedInput::MouseInput { button, state } => RecordedInputView::MouseInput { button: *button, state: *state },
            RecordedInput::RawKeyboardInput { key, state } => RecordedInputView::RawKeyboardInput {
                key: key@,
                state: *state,
            },
            RecordedInput::Chars { chars } => RecordedInputView::Chars { chars: chars@ },
        }
    }
}

/// The injected button that names a pressed button: the button of a single
/// known bit, the primary button for anything else.
pub open spec fn button_of_bits(bits: u8) -> InjectMouseButton {
    if bits == 1 {
        InjectMouseButton::Primary
    } else if bits == 2 {
        InjectMouseButton::Secondary
    } else if bits == 4 {
        InjectMouseButton::Auxiliary
    } else if bits == 8 {
        InjectMouseButton::Fourth
    } else if bits == 16 {
        InjectMouseButton::Fifth
    } else {
        InjectMouseButton::Primary
    }
}

/// The injected button that names `b`.
pub fn inject_button_of(b: MouseButtons) -> (r: InjectMouseButton)
    ensures
        r == button_of_bits(b.bits),
{
    match b.bits {
        1 => InjectMouseButton::Primary,
        2 => InjectMouseButton::Secondary,
        4 => InjectMouseButton::Auxiliary,
        8 => InjectMouseButton::Fourth,
        16 => InjectMouseButton::Fifth,
        _ => InjectMouseButton::Primary,
    }
}

pub open spec fn injected_state(s: ElementState) -> InjectElementState {
    match s {
        ElementState::Pressed => InjectElementState::Pressed,
        ElementState::Released => InjectElementState::Released,
    }
}

/// What a recording keeps of a window event: mouse input, key presses and
/// releases, received text and the cursor leaving; nothing of the others.
pub open spec fn recorded_input_of(e: UiEventView) -> Option<RecordedInputView> {
    match e {
        UiEventView::CursorLeft { .. } => Some(RecordedInputView::CursorLeft),
        UiEventView::MouseInput { button, state, .. } => Some(RecordedInputView::MouseInput {
            button: button_of_bits(button.bits),
            state: injected_state(state),
        }),
        UiEventView::KeyBoard { key, state, .. } => Some(RecordedInputView::RawKeyboardInput {
            key,
            state: injected_state(state),
        }),
        UiEventView::ReceiveChars { chars, .. } => Some(RecordedInputView::Chars { chars }),
        _ => None,
    }
}

fn injected_state_of(s: ElementState) -> (r: InjectElementState)
    ensures
        r == injected_state(s),
{
    match s {
        ElementState::Pressed => InjectElementState::Pressed,
        ElementState::Released => InjectElementState::Released,
    }
}

/// What a recording keeps of a window event.
pub fn recorded_input(event: &UiEvent) -> (r: Option<RecordedInput>)
    ensures
        match recorded_input_of(event@) {
            Some(v) => r matches Some(x) && x@ == v,
            None => r is None,
        },
{
    match event {
        UiEvent::CursorLeft { .. } => Some(RecordedInput::CursorLeft),
        UiEvent::MouseInput { button, state, .. } => Some(RecordedInput::MouseInput {
            button: inject_button_of(*button),
            state: injected_state_of(*state),
        }),
        UiEvent::KeyBoard { key, state, .. } => Some(RecordedInput::RawKeyboardInput {
            key: key.duplicate(),
            state: injected_state_of(*state),
        }),
        UiEvent::ReceiveChars { chars, .. } => Some(RecordedInput::Chars { chars: chars.as_str().to_owned() }),
        _ => None,
    }
}

/// Replaying a recorded key or button event reproduces it: its key and its
/// state (a release stays a release), and a single pressed button stays
/// that button, as the injection of the recorded event turns them back
/// into window input.
pub proof fn law_recording_keeps_key_and_button_input(e: UiEventView)
    ensures
        e matches UiEventView::KeyBoard { key, state, .. } ==> (recorded_input_of(e) matches Some(
            RecordedInputView::RawKeyboardInput { key: k, state: t },
        ) && k == key && state_of(t) == state),
        e matches UiEventView::MouseInput { button, state, .. } ==> (recorded_input_of(e) matches Some(
            RecordedInputView::MouseInput { button: b, state: t },
        ) && state_of(t) == state && ((button.bits == 1 || button.bits == 2 || button.bits == 4
            || button.bits == 8 || button.bits == 16) ==> button_bits(b) == button.bits)),
{
}

} // verus!
