//! Event data: mouse buttons, keyboard modifiers, devices, and the common
//! part that every event carries while it travels through the widget tree.
use vstd::prelude::*;

use crate::widget_tree::{WidgetId, WidgetTree};

verus! {

/// Number of set bits among the low `n` bits of `b`.
pub open spec fn ones_below(b: u32, n: nat) -> nat
    decreases n,
{
    if n == 0 {
        0
    } else {
        ones_below(b, (n - 1) as nat) + (if (b >> ((n - 1) as u32)) & 1 == 1 { 1nat } else { 0nat })
    }
}

/// Mouse buttons that are held down, one bit per button.
#[derive(Debug, Clone, Copy, PartialEq, Eq, Structural)]
pub struct MouseButtons {
    pub bits: u8,
}

impl MouseButtons {
    /// Primary button (usually the left button).
    pub fn primary() -> (r: MouseButtons)
        ensures
            r.bits == 1,
    {
        MouseButtons { bits: 1 }
    }
    /// Secondary button (usually the right button).
    pub fn secondary() -> (r: MouseButtons)
        ensures
            r.bits == 2,
    {
        MouseButtons { bits: 2 }
    }
    /// Auxiliary button (usually the wheel or middle button).
    pub fn auxiliary() -> (r: MouseButtons)
        ensures
            r.bits == 4,
    {
        MouseButtons { bits: 4 }
    }
    /// 4th button (typically "Browser Back").
    pub fn fourth() -> (r: MouseButtons)
        ensures
            r.bits == 8,
    {
        MouseButtons { bits: 8 }
    }
    /// 5th button (typically "Browser Forward").
    pub fn fifth() -> (r: MouseButtons)
        ensures
            r.bits == 16,
    {
        MouseButtons { bits: 16 }
    }

    pub fn empty() -> (r: MouseButtons)
        ensures
            r.bits == 0,
    {
        MouseButtons { bits: 0 }
    }

    pub fn bits(&self) -> (r: u8)
        ensures
            r == self.bits,
    {
        self.bits
    }

    /// The buttons of `self` and of `other`.
    pub fn union(self, other: MouseButtons) -> (r: MouseButtons)
        ensures
            r.bits == self.bits | other.bits,
    {
        MouseButtons { bits: self.bits | other.bits }
    }

    /// The buttons of `self` without those of `other`.
    pub fn remove(&mut self, other: MouseButtons)
        ensures
            final(self).bits == old(self).bits & !other.bits,
    {
        self.bits = self.bits & !other.bits;
    }

    /// Whether every button of `other` is held.
    pub fn contains(&self, other: MouseButtons) -> (r: bool)
        ensures
            r == (self.bits & other.bits == other.bits),
    {
        self.bits & other.bits == other.bits
    }

    /// Number of buttons held.
    pub fn count(&self) -> (r: u32)
        ensures
            r == ones_below(self.bits as u32, 8),
    {
        let b: u32 = self.bits as u32;
        let mut n: u32 = 0;
        let mut i: u32 = 0;
        while i < 8
            invariant
                b == self.bits as u32,
                i <= 8,
                n == ones_below(b, i as nat),
                n <= i,
            decreases 8 - i,
        {
            if (b >> i) & 1 == 1 {
                n = n + 1;
            }
            i = i + 1;
        }
        n
    }
}

/// Keyboard modifier keys that are held, one bit group per key.
#[derive(Debug, Clone, Copy, PartialEq, Eq, Structural)]
pub struct ModifiersState {
    pub bits: u32,
}

impl ModifiersState {
    /// The shift key.
    pub fn shift() -> (r: ModifiersState)
        ensures
            r.bits == 0x4,
    {
        ModifiersState { bits: 0x4 }
    }
    /// The control key.
    pub fn control() -> (r: ModifiersState)
        ensures
            r.bits == 0x20,
    {
        ModifiersState { bits: 0x20 }
    }
    /// The alt key.
    pub fn alt() -> (r: ModifiersState)
        ensures
            r.bits == 0x100,
    {
        ModifiersState { bits: 0x100 }
    }
    /// The logo ("super", command) key.
    pub fn logo() -> (r: ModifiersState)
        ensures
            r.bits == 0x800,
    {
        ModifiersState { bits: 0x800 }
    }

    pub fn empty() -> (r: ModifiersState)
        ensures
            r.bits == 0,
    {
        ModifiersState { bits: 0 }
    }

    /// The keys of `self` and of `other`.
    pub fn union(self, other: ModifiersState) -> (r: ModifiersState)
        ensures
            r.bits == self.bits | other.bits,
    {
        ModifiersState { bits: self.bits | other.bits }
    }

    pub fn shift_key(&self) -> (r: bool)
        ensures
            r == (self.bits & 0x4 != 0),
    {
        self.bits & 0x4 != 0
    }

    pub fn control_key(&self) -> (r: bool)
        ensures
            r == (self.bits & 0x20 != 0),
    {
        self.bits & 0x20 != 0
    }

    pub fn alt_key(&self) -> (r: bool)
        ensures
            r == (self.bits & 0x100 != 0),
    {
        self.bits & 0x100 != 0
    }

    pub fn super_key(&self) -> (r: bool)
        ensures
            r == (self.bits & 0x800 != 0),
    {
        self.bits & 0x800 != 0
    }
}

/// Whether a key or button is down or up.
#[derive(Debug, Clone, Copy, PartialEq, Eq, Structural)]
pub enum ElementState {
    Pressed,
    Released,
}

/// Touch-screen input phase.
#[derive(Debug, Clone, Copy, PartialEq, Eq, Structural)]
pub enum TouchPhase {
    Started,
    Moved,
    Ended,
    Cancelled,
}

/// The kind of device that produced a pointer event.
#[derive(Debug, Clone, Copy, PartialEq, Eq, Structural)]
pub enum PointerType {
    /// A mouse.
    Mouse,
    /// A pen or stylus.
    Pen,
    /// A touch, such as a finger.
    Touch,
}

/// A unique identifier of the pointer causing an event.
#[derive(Debug, Clone, Copy, PartialEq, Eq, Structural)]
pub struct PointerId(pub usize);

/// A device that the library itself names.
#[derive(Debug, Clone, Copy, PartialEq, Eq, Structural)]
pub enum RibirDeviceId {
    Dummy,
    Custom(u64),
}

impl RibirDeviceId {
    /// Whether `self` and `other` are the same device.
    pub fn is_same_device(&self, other: &RibirDeviceId) -> (r: bool)
        ensures
            r == (*self == *other),
    {
        match (self, other) {
            (RibirDeviceId::Dummy, RibirDeviceId::Dummy) => true,
            (RibirDeviceId::Custom(a), RibirDeviceId::Custom(b)) => *a == *b,
            _ => false,
        }
    }
}

/// A placeholder device for synthesized input.
#[derive(Debug, Clone, Copy, PartialEq, Eq, Structural)]
pub struct DummyDeviceId;

/// What caused a widget to gain focus.
#[derive(Debug, Clone, Copy, PartialEq, Eq, Structural)]
pub enum FocusReason {
    /// Keyboard navigation (Tab/Arrow keys).
    Keyboard,
    /// Pointer interaction (mouse click/touch tap).
    Pointer,
    /// Automatic focus assignment when the window loaded.
    AutoFocus,
    /// Programmatic focus or unspecified source.
    Other,
}

/// The number that stands for a focus reason.
pub open spec fn focus_reason_code(r: FocusReason) -> u8 {
    match r {
        FocusReason::Keyboard => 0,
        FocusReason::Pointer => 1,
        FocusReason::AutoFocus => 2,
        FocusReason::Other => 3,
    }
}

impl FocusReason {
    /// The focus reason that `reason` stands for.
    pub fn from_u8(reason: u8) -> (r: FocusReason)
        requires
            reason <= 3,
        ensures
            focus_reason_code(r) == reason,
    {
        match reason {
            0 => FocusReason::Keyboard,
            1 => FocusReason::Pointer,
            2 => FocusReason::AutoFocus,
            3 => FocusReason::Other,
            _ => {
                let no_reason: Option<FocusReason> = None;
                no_reason.unwrap()
            },
        }
    }

    /// The number that stands for this focus reason.
    pub fn to_u8(self) -> (r: u8)
        ensures
            r == focus_reason_code(self),
    {
        match self {
            FocusReason::Keyboard => 0,
            FocusReason::Pointer => 1,
            FocusReason::AutoFocus => 2,
            FocusReason::Other => 3,
        }
    }
}

/// The input state that events read: held mouse buttons, the device that
/// pressed them, and the keyboard modifiers.
#[derive(Debug, Clone, Copy, PartialEq, Eq, Structural)]
pub struct DispatchInfo {
    pub buttons: MouseButtons,
    pub device_id: Option<RibirDeviceId>,
    pub modifiers: ModifiersState,
}

impl DispatchInfo {
    pub fn new() -> (r: DispatchInfo)
        ensures
            r.buttons.bits == 0,
            r.device_id is None,
            r.modifiers.bits == 0,
    {
        DispatchInfo { buttons: MouseButtons::empty(), device_id: None, modifiers: ModifiersState::empty() }
    }

    pub fn modifiers(&self) -> (r: ModifiersState)
        ensures
            r == self.modifiers,
    {
        self.modifiers
    }

    pub fn mouse_buttons(&self) -> (r: MouseButtons)
        ensures
            r == self.buttons,
    {
        self.buttons
    }

    /// Records that the keyboard modifiers changed.
    pub fn set_modifiers(&mut self, state: ModifiersState)
        ensures
            *final(self) == (DispatchInfo { modifiers: state, ..*old(self) }),
    {
        self.modifiers = state;
    }

    /// Whether `device_id` differs from the device that pressed the held buttons.
    pub fn is_different_device(&self, device_id: &RibirDeviceId) -> (r: bool)
        ensures
            r == (self.device_id is Some && self.device_id->0 != *device_id),
    {
        match &self.device_id {
            Some(d) => !d.is_same_device(device_id),
            None => false,
        }
    }

    /// Records the device of a new press or release; buttons held on another
    /// device are forgotten.
    pub fn set_device_id(&mut self, device_id: RibirDeviceId)
        ensures
            final(self).device_id == Some(device_id),
            final(self).modifiers == old(self).modifiers,
            final(self).buttons.bits == if old(self).device_id is Some && old(self).device_id->0 != device_id {
                0u8
            } else {
                old(self).buttons.bits
            },
    {
        if self.is_different_device(&device_id) {
            self.buttons = MouseButtons::empty();
        }
        self.device_id = Some(device_id);
    }

    /// Records a button press.
    pub fn press_button(&mut self, button: MouseButtons)
        ensures
            final(self).buttons.bits == old(self).buttons.bits | button.bits,
            final(self).device_id == old(self).device_id,
            final(self).modifiers == old(self).modifiers,
    {
        self.buttons = self.buttons.union(button);
    }

    /// Records a button release.
    pub fn release_button(&mut self, button: MouseButtons)
        ensures
            final(self).buttons.bits == old(self).buttons.bits & !button.bits,
            final(self).device_id == old(self).device_id,
            final(self).modifiers == old(self).modifiers,
    {
        self.buttons.remove(button);
    }
}

/// The part that every event carries: its target, the widget it is
/// currently at, whether it still bubbles, whether its default action is
/// prevented, and the input state when it was fired.
#[derive(Debug, Clone, Copy, PartialEq, Eq, Structural)]
pub struct CommonEvent {
    pub id: WidgetId,
    pub target: WidgetId,
    pub propagation: bool,
    pub prevent_default: bool,
    pub info: DispatchInfo,
}

impl CommonEvent {
    /// A new event fired at `target`.
    pub fn new(target: WidgetId, info: DispatchInfo) -> (r: CommonEvent)
        ensures
            r.id == target,
            r.target == target,
            r.propagation,
            !r.prevent_default,
            r.info == info,
    {
        CommonEvent { id: target, target, propagation: true, prevent_default: false, info }
    }

    /// The widget the event was fired at.
    pub fn target(&self) -> (r: WidgetId)
        ensures
            r == self.target,
    {
        self.target
    }

    /// The widget the event is at now.
    pub fn current_target(&self) -> (r: WidgetId)
        ensures
            r == self.id,
    {
        self.id
    }

    /// Stops the event from bubbling to the parent.
    pub fn stop_propagation(&mut self)
        ensures
            *final(self) == (CommonEvent { propagation: false, ..*old(self) }),
    {
        self.propagation = false;
    }

    /// The event moves on to the parent of `id`; false, and nothing moves,
    /// when `id` has no parent.
    pub fn bubble_to_parent(&mut self, tree: &WidgetTree, id: WidgetId) -> (r: bool)
        requires
            id.0 < tree.view().len(),
        ensures
            r == tree.view()[id.0 as int].parent is Some,
            r ==> *final(self) == (CommonEvent { id: WidgetId(tree.view()[id.0 as int].parent->0), ..*old(self) }),
            !r ==> *final(self) == *old(self),
    {
        match tree.parent(id) {
            Some(p) => {
                self.id = p;
                true
            },
            None => false,
        }
    }

    /// The event moves down to `id` while it is captured.
    pub fn capture_to_child(&mut self, id: WidgetId)
        ensures
            *final(self) == (CommonEvent { id, ..*old(self) }),
    {
        self.id = id;
    }

    /// Whether the event still bubbles.
    pub fn is_propagation(&self) -> (r: bool)
        ensures
            r == self.propagation,
    {
        self.propagation
    }

    /// Prevents the default action of the event.
    pub fn prevent_default(&mut self)
        ensures
            *final(self) == (CommonEvent { prevent_default: true, ..*old(self) }),
    {
        self.prevent_default = true;
    }

    /// Whether the default action of the event is prevented.
    pub fn is_prevent_default(&self) -> (r: bool)
        ensures
            r == self.prevent_default,
    {
        self.prevent_default
    }

    /// The keyboard modifiers held when the event was fired.
    pub fn modifiers(&self) -> (r: ModifiersState)
        ensures
            r == self.info.modifiers,
    {
        self.info.modifiers()
    }

    pub fn with_shift_key(&self) -> (r: bool)
        ensures
            r == (self.info.modifiers.bits & 0x4 != 0),
    {
        self.modifiers().shift_key()
    }

    pub fn with_alt_key(&self) -> (r: bool)
        ensures
            r == (self.info.modifiers.bits & 0x100 != 0),
    {
        self.modifiers().alt_key()
    }

    pub fn with_ctrl_key(&self) -> (r: bool)
        ensures
            r == (self.info.modifiers.bits & 0x20 != 0),
    {
        self.modifiers().control_key()
    }

    pub fn with_logo_key(&self) -> (r: bool)
        ensures
            r == (self.info.modifiers.bits & 0x800 != 0),
    {
        self.modifiers().super_key()
    }

    /// Whether the platform's main modifier is held: the logo (command) key
    /// on macOS, the control key elsewhere.
    pub fn with_command_key(&self, on_macos: bool) -> (r: bool)
        ensures
            r == if on_macos {
                self.info.modifiers.bits & 0x800 != 0
            } else {
                self.info.modifiers.bits & 0x20 != 0
            },
    {
        if on_macos {
            self.with_logo_key()
        } else {
            self.with_ctrl_key()
        }
    }

    /// The mouse buttons held when the event was fired.
    pub fn mouse_buttons(&self) -> (r: MouseButtons)
        ensures
            r == self.info.buttons,
    {
        self.info.mouse_buttons()
    }

    /// How many mouse buttons were held.
    pub fn button_num(&self) -> (r: u32)
        ensures
            r == ones_below(self.info.buttons.bits as u32, 8),
    {
        self.mouse_buttons().count()
    }
}

/// `Ok` while the event still bubbles, `Err` once bubbling was stopped.
pub fn ok_bubble(e: CommonEvent) -> (r: Result<CommonEvent, CommonEvent>)
    ensures
        r == if e.propagation { Ok::<CommonEvent, CommonEvent>(e) } else { Err(e) },
{
    if e.propagation {
        Ok(e)
    } else {
        Err(e)
    }
}

/// Characters typed by the user.
#[derive(Debug)]
pub struct CharsEvent {
    pub chars: String,
    pub common: CommonEvent,
}

impl CharsEvent {
    pub fn new(chars: String, id: WidgetId, info: DispatchInfo) -> (r: CharsEvent)
        ensures
            r.chars@ == chars@,
            r.common == CommonEvent::new_spec(id, info),
    {
        CharsEvent { chars, common: CommonEvent::new(id, info) }
    }
}

impl CommonEvent {
    pub open spec fn new_spec(target: WidgetId, info: DispatchInfo) -> CommonEvent {
        CommonEvent { id: target, target, propagation: true, prevent_default: false, info }
    }
}

/// An event that carries data of the user's choosing.
#[derive(Debug)]
pub struct CustomEvent<E> {
    pub common: CommonEvent,
    pub data: E,
}

/// A custom event carrying `data`.
pub fn new_custom_event<E>(common: CommonEvent, data: E) -> (r: CustomEvent<E>)
    ensures
        r.common == common,
        r.data == data,
{
    CustomEvent { common, data }
}

impl<E> CustomEvent<E> {
    pub fn data(&self) -> (r: &E)
        ensures
            *r == self.data,
    {
        &self.data
    }

    pub fn data_mut(&mut self) -> (r: &mut E)
        ensures
            *r == old(self).data,
            final(self).data == *final(r),
            final(self).common == old(self).common,
    {
        &mut self.data
    }
}

/// Input method pre-edit progress.
#[derive(Debug, Clone, PartialEq, Eq)]
pub enum ImePreEdit {
    /// A new pre-edit round begins.
    Begin,
    /// The composing text to show at the cursor, with the byte range of the
    /// cursor; an empty text clears the pre-edit.
    PreEdit { value: String, cursor: Option<(usize, usize)> },
    /// The pre-edit round finished.
    End,
}

/// An input method pre-edit event.
#[derive(Debug)]
pub struct ImePreEditEvent {
    pub pre_edit: ImePreEdit,
    pub common: CommonEvent,
}

impl ImePreEditEvent {
    pub fn new(pre_edit: ImePreEdit, target: WidgetId, info: DispatchInfo) -> (r: ImePreEditEvent)
        ensures
            r.pre_edit == pre_edit,
            r.common == CommonEvent::new_spec(target, info),
    {
        ImePreEditEvent { pre_edit, common: CommonEvent::new(target, info) }
    }
}

/// Each focus reason has its own number, and the numbers are 0 to 3: a
/// reason turned into its number and back is the same reason.
pub proof fn law_focus_reason_code_round_trip(r: FocusReason, other: FocusReason)
    ensures
        focus_reason_code(r) <= 3,
        focus_reason_code(r) == focus_reason_code(other) ==> r == other,
{
}

/// Pressing buttons that were up and releasing them again leaves the held
/// buttons as they were; releasing is idempotent.
pub proof fn law_press_then_release(held: u8, button: u8)
    ensures
        held & button == 0 ==> (held | button) & !button == held,
        ((held & !button) & !button) == held & !button,
{
    assert(held & button == 0 ==> (held | button) & !button == held) by (bit_vector);
    assert(((held & !button) & !button) == held & !button) by (bit_vector);
}

} // verus!
