//! Window-level input events.
use vstd::prelude::*;

use crate::events::{ElementState, FocusReason, ImePreEdit, ModifiersState, MouseButtons, RibirDeviceId};
use crate::widget_tree::WidgetId;
use crate::key_mapping::{KeyLocation, PhysicalKey, VirtualKey, VirtualKeyView};
use crate::scheduler::RedrawDemand;

verus! {

/// An input event that the platform delivers to a window.
#[derive(Debug)]
pub enum UiEvent {
    KeyBoard {
        wnd_id: u64,
        key: VirtualKey,
        state: ElementState,
        physical_key: PhysicalKey,
        is_repeat: bool,
        location: KeyLocation,
    },
    ReceiveChars { wnd_id: u64, chars: String },
    MouseInput { wnd_id: u64, device_id: RibirDeviceId, button: MouseButtons, state: ElementState },
    ModifiersChanged { wnd_id: u64, state: ModifiersState },
    RedrawRequest { wnd_id: u64, demand: RedrawDemand },
    CursorLeft { wnd_id: u64 },
}

/// What a window input event holds, texts as character sequences.
pub enum UiEventView {
    KeyBoard {
        wnd_id: u64,
        key: VirtualKeyView,
        state: ElementState,
        physical_key: PhysicalKey,
        is_repeat: bool,
        location: KeyLocation,
    },
    ReceiveChars { wnd_id: u64, chars: Seq<char> },
    MouseInput { wnd_id: u64, device_id: RibirDeviceId, button: MouseButtons, state: ElementState },
    ModifiersChanged { wnd_id: u64, state: ModifiersState },
    RedrawRequest { wnd_id: u64, demand: RedrawDemand },
    CursorLeft { wnd_id: u64 },
}

impl View for UiEvent {
    type V = UiEventView;

    open spec fn view(&self) -> UiEventView {
        match self {
            UiEvent::KeyBoard { wnd_id, key, state, physical_key, is_repeat, location } => UiEventView::KeyBoard {
                wnd_id: *wnd_id,
                key: key@,
                state: *state,
                physical_key: *physical_key,
                is_repeat: *is_repeat,
                location: *location,
            },
            UiEvent::ReceiveChars { wnd_id, chars } => UiEventView::ReceiveChars { wnd_id: *wnd_id, chars: chars@ },
            UiEvent::MouseInput { wnd_id, device_id, button, state } => UiEventView::MouseInput {
                wnd_id: *wnd_id,
                device_id: *device_id,
                button: *button,
                state: *state,
            },
            UiEvent::ModifiersChanged { wnd_id, state } => UiEventView::ModifiersChanged { wnd_id: *wnd_id, state: *state },
            UiEvent::RedrawRequest { wnd_id, demand } => UiEventView::RedrawRequest { wnd_id: *wnd_id, demand: *demand },
            UiEvent::CursorLeft { wnd_id } => UiEventView::CursorLeft { wnd_id: *wnd_id },
        }
    }
}

/// The views of a list of window events.
pub open spec fn events_view(v: Seq<UiEvent>) -> Seq<UiEventView> {
    v.map_values(|e: UiEvent| e@)
}

/// The window an event is for.
pub open spec fn event_window(e: UiEventView) -> u64 {
    match e {
        UiEventView::KeyBoard { wnd_id, .. } => wnd_id,
        UiEventView::ReceiveChars { wnd_id, .. } => wnd_id,
        UiEventView::MouseInput { wnd_id, .. } => wnd_id,
        UiEventView::ModifiersChanged { wnd_id, .. } => wnd_id,
        UiEventView::RedrawRequest { wnd_id, .. } => wnd_id,
        UiEventView::CursorLeft { wnd_id } => wnd_id,
    }
}

impl UiEvent {
    /// The window an event is for.
    pub fn wnd_id(&self) -> (r: u64)
        ensures
            r == event_window(self@),
    {
        match self {
            UiEvent::KeyBoard { wnd_id, .. } => *wnd_id,
            UiEvent::ReceiveChars { wnd_id, .. } => *wnd_id,
            UiEvent::MouseInput { wnd_id, .. } => *wnd_id,
            UiEvent::ModifiersChanged { wnd_id, .. } => *wnd_id,
            UiEvent::RedrawRequest { wnd_id, .. } => *wnd_id,
            UiEvent::CursorLeft { wnd_id } => *wnd_id,
        }
    }
}

/// An event that a window queues while it handles input, to dispatch to
/// widgets once the current work is done.
#[derive(Debug)]
pub enum DelayEvent {
    Mounted(WidgetId),
    PerformedLayout(WidgetId),
    Disposed { id: WidgetId, parent: Option<WidgetId> },
    Focus { id: WidgetId, reason: FocusReason },
    Blur { id: WidgetId, reason: FocusReason },
    FocusIn { bottom: WidgetId, up: Option<WidgetId>, reason: FocusReason },
    FocusOut { bottom: WidgetId, up: Option<WidgetId>, reason: FocusReason },
    KeyBoard {
        id: WidgetId,
        key: VirtualKey,
        state: ElementState,
        physical_key: PhysicalKey,
        is_repeat: bool,
        location: KeyLocation,
    },
    TabFocusMove,
    Chars { id: WidgetId, chars: String },
    ImePreEdit { wid: WidgetId, pre_edit: ImePreEdit },
    GrabPointerDown(WidgetId),
    GrabPointerMove(WidgetId),
    GrabPointerUp(WidgetId),
    PointerDown(WidgetId),
    PointerMove(WidgetId),
    PointerUp(WidgetId),
    Tap(WidgetId),
    PointerEnter { bottom: WidgetId, up: Option<WidgetId> },
    PointerLeave { bottom: WidgetId, up: Option<WidgetId> },
}

/// A message to the event loop.
#[derive(Debug)]
pub enum CoreMsg {
    /// An input event of a window.
    Platform(UiEvent),
    /// The platform is ready for a frame of a window.
    FrameReady { wnd_id: u64, demand: RedrawDemand },
    /// Data changed; pending reactive changes are to be flushed.
    DataChanged,
    /// A window is to be closed.
    CloseWindow { wnd_id: u64 },
    /// The application is to exit.
    Exit,
}

impl From<UiEvent> for CoreMsg {
    /// A redraw request becomes a frame-ready message; any other event is
    /// passed on as it is.
    fn from(event: UiEvent) -> (r: CoreMsg) {
        match event {
            UiEvent::RedrawRequest { wnd_id, demand } => CoreMsg::FrameReady { wnd_id, demand },
            event => CoreMsg::Platform(event),
        }
    }
}

impl vstd::std_specs::convert::FromSpecImpl<UiEvent> for CoreMsg {
    open spec fn obeys_from_spec() -> bool {
        true
    }

    open spec fn from_spec(event: UiEvent) -> CoreMsg {
        match event {
            UiEvent::RedrawRequest { wnd_id, demand } => CoreMsg::FrameReady { wnd_id, demand },
            event => CoreMsg::Platform(event),
        }
    }
}

} // verus!
