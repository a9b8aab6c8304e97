//! Injected input: the names that requests use for buttons, key states and
//! key locations, and the window events that injected keyboard input becomes.
use vstd::prelude::*;

use crate::events::{ElementState, MouseButtons, RibirDeviceId, ModifiersState};
use crate::key_mapping::{
    derive_physical_key, infer_receive_chars_from_key, keyboard_key_error,
    keyboard_physical_key_error, parse_key_code, parse_virtual_key, physical_key_of,
    receive_chars_of, virtual_key_of, key_code_of_name, key_error_message,
    physical_key_error_message, KeyLocation, PhysicalKey, VirtualKey,
};
use crate::ranking::{closest_names, closest_names_of};
use crate::scheduler::RedrawDemand;
use crate::window::{events_view, UiEvent, UiEventView};
use crate::key_mapping::VirtualKeyView;
use crate::text::{
    chars_eq, chars_eq_str, chars_of, join_names, joined, names_view, normalize_chars,
    normalized, string_from_chars,
};

verus! {

/// A mouse button named in an injected event.
#[derive(Debug, Clone, Copy, PartialEq, Eq, Structural)]
pub enum InjectMouseButton {
    Primary,
    Secondary,
    Auxiliary,
    Fourth,
    Fifth,
}

/// A key or button state named in an injected event.
#[derive(Debug, Clone, Copy, PartialEq, Eq, Structural)]
pub enum InjectElementState {
    Pressed,
    Released,
}

/// A key location named in an injected event.
#[derive(Debug, Clone, Copy, PartialEq, Eq, Structural)]
pub enum InjectKeyLocation {
    Standard,
    Left,
    Right,
    Numpad,
}

/// A device named in an injected event.
#[derive(Debug, Clone, Copy, PartialEq, Eq, Structural)]
pub enum InjectDeviceId {
    Dummy,
    Custom(u64),
}

/// How many injected window events were accepted.
#[derive(Debug, Clone, Copy, PartialEq, Eq, Structural)]
pub struct InjectEventsResult {
    pub accepted: usize,
}

impl Default for InjectMouseButton {
    fn default() -> (r: Self)
        ensures
            r == InjectMouseButton::Primary,
    {
        InjectMouseButton::Primary
    }
}

impl Default for InjectKeyLocation {
    fn default() -> (r: Self)
        ensures
            r == InjectKeyLocation::Standard,
    {
        InjectKeyLocation::Standard
    }
}

impl Default for InjectDeviceId {
    fn default() -> (r: Self)
        ensures
            r == InjectDeviceId::Dummy,
    {
        InjectDeviceId::Dummy
    }
}

/// The mouse buttons a named button stands for.
pub open spec fn button_bits(b: InjectMouseButton) -> u8 {
    match b {
        InjectMouseButton::Primary => 1,
        InjectMouseButton::Secondary => 2,
        InjectMouseButton::Auxiliary => 4,
        InjectMouseButton::Fourth => 8,
        InjectMouseButton::Fifth => 16,
    }
}

/// The mouse buttons a named button stands for.
pub fn mouse_button(button: InjectMouseButton) -> (r: MouseButtons)
    ensures
        r.bits == button_bits(button),
{
    match button {
        InjectMouseButton::Primary => MouseButtons::primary(),
        InjectMouseButton::Secondary => MouseButtons::secondary(),
        InjectMouseButton::Auxiliary => MouseButtons::auxiliary(),
        InjectMouseButton::Fourth => MouseButtons::fourth(),
        InjectMouseButton::Fifth => MouseButtons::fifth(),
    }
}

/// The key location a named location stands for.
pub open spec fn location_of(l: InjectKeyLocation) -> KeyLocation {
    match l {
        InjectKeyLocation::Standard => KeyLocation::Standard,
        InjectKeyLocation::Left => KeyLocation::Left,
        InjectKeyLocation::Right => KeyLocation::Right,
        InjectKeyLocation::Numpad => KeyLocation::Numpad,
    }
}

/// The key location a named location stands for.
pub fn key_location(location: InjectKeyLocation) -> (r: KeyLocation)
    ensures
        r == location_of(location),
{
    match location {
        InjectKeyLocation::Standard => KeyLocation::Standard,
        InjectKeyLocation::Left => KeyLocation::Left,
        InjectKeyLocation::Right => KeyLocation::Right,
        InjectKeyLocation::Numpad => KeyLocation::Numpad,
    }
}

/// The state a named state stands for.
pub open spec fn state_of(s: InjectElementState) -> ElementState {
    match s {
        InjectElementState::Pressed => ElementState::Pressed,
        InjectElementState::Released => ElementState::Released,
    }
}

/// The state a named state stands for.
pub fn element_state(state: InjectElementState) -> (r: ElementState)
    ensures
        r == state_of(state),
{
    match state {
        InjectElementState::Pressed => ElementState::Pressed,
        InjectElementState::Released => ElementState::Released,
    }
}

/// The device a named device stands for.
pub fn device_id(id: InjectDeviceId) -> (r: RibirDeviceId)
    ensures
        r == match id {
            InjectDeviceId::Dummy => RibirDeviceId::Dummy,
            InjectDeviceId::Custom(n) => RibirDeviceId::Custom(n),
        },
{
    match id {
        InjectDeviceId::Dummy => RibirDeviceId::Dummy,
        InjectDeviceId::Custom(n) => RibirDeviceId::Custom(n),
    }
}

/// The name with surrounding whitespace removed, only ASCII letters and
/// digits kept, lower-cased.
pub fn normalize_token(value: &str) -> (r: String)
    ensures
        r@ == normalized(value@),
{
    let v = normalize_chars(&chars_of(value));
    string_from_chars(&v)
}

/// The candidates closest to `input`, best first, at most `limit`.
pub fn closest_matches<'a>(input: &str, candidates: &[&'a str], limit: usize) -> (r: Vec<&'a str>)
    requires
        input@.len() < usize::MAX,
        forall|k: int| 0 <= k < candidates@.len() ==> (#[trigger] candidates@[k])@.len() < usize::MAX,
    ensures
        names_view(r@) == closest_names(input@, names_view(candidates@), limit as nat),
{
    closest_names_of(input, candidates, limit)
}

/// `s` without repeats of the same item in a row.
pub open spec fn dedup_runs(s: Seq<Seq<char>>) -> Seq<Seq<char>>
    decreases s.len(),
{
    if s.len() == 0 {
        s
    } else if s.len() >= 2 && s.last() == s[s.len() - 2] {
        dedup_runs(s.drop_last())
    } else {
        dedup_runs(s.drop_last()).push(s.last())
    }
}

/// The suggestions an error about `value` offers.
pub open spec fn suggestions(kind: Seq<char>, value: Seq<char>, candidates: Seq<Seq<char>>) -> Seq<Seq<char>> {
    let closest = closest_names(value, candidates, 3);
    if kind == "button"@ {
        let n = normalized(value);
        let with_alias = if n == "left"@ {
            seq!["primary"@] + closest
        } else if n == "right"@ {
            seq!["secondary"@] + closest
        } else if n == "middle"@ {
            seq!["auxiliary"@] + closest
        } else {
            closest
        };
        let d = dedup_runs(with_alias);
        if d.len() > 3 { d.take(3) } else { d }
    } else {
        closest
    }
}

/// The message that rejects `value` as a `kind`.
pub open spec fn enum_error_text(kind: Seq<char>, value: Seq<char>, candidates: Seq<Seq<char>>) -> Seq<char> {
    "Invalid "@ + kind + " '"@ + value + "'. Closest matches: "@ + joined(suggestions(kind, value, candidates), ", "@)
        + ". Supported values: "@ + joined(candidates, ", "@) + "."@
}

/// `a` and `b` are the same text.
fn str_eq(a: &str, b: &str) -> (r: bool)
    ensures
        r == (a@ == b@),
{
    chars_eq(&chars_of(a), &chars_of(b))
}

/// `v` without repeats of the same item in a row.
fn dedup_names<'a>(v: &Vec<&'a str>) -> (r: Vec<&'a str>)
    ensures
        names_view(r@) == dedup_runs(names_view(v@)),
{
    let mut out: Vec<&'a str> = Vec::new();
    let mut i: usize = 0;
    while i < v.len()
        invariant
            i <= v.len(),
            names_view(out@) == dedup_runs(names_view(v@).take(i as int)),
        decreases v.len() - i,
    {
        let ghost t = names_view(v@).take(i + 1);
        assert(t.drop_last() == names_view(v@).take(i as int));
        assert(t.last() == v@[i as int]@);
        if i > 0 && str_eq(v[i], v[i - 1]) {
            assert(t[t.len() - 2] == v@[i - 1]@);
        } else {
            let ghost before = out@;
            out.push(v[i]);
            assert(names_view(out@) =~= names_view(before).push(v@[i as int]@));
        }
        i = i + 1;
    }
    assert(names_view(v@).take(v.len() as int) =~= names_view(v@));
    out
}

/// The message that rejects `value` as a `kind`: the closest candidates
/// (for buttons, the conventional alias of left/right/middle first, no
/// repeats, at most three) and all candidates.
pub fn enum_error_message(kind: &str, value: &str, candidates: &[&str]) -> (r: String)
    requires
        value@.len() < usize::MAX,
        forall|k: int| 0 <= k < candidates@.len() ==> (#[trigger] candidates@[k])@.len() < usize::MAX,
    ensures
        r@ == enum_error_text(kind@, value@, names_view(candidates@)),
{
    let mut closest = closest_matches(value, candidates, 3);
    let n = normalize_chars(&chars_of(value));
    let is_button = str_eq(kind, "button");
    if is_button {
        let ghost c0 = names_view(closest@);
        if chars_eq_str(&n, "left") {
            closest.insert(0, "primary");
            assert(names_view(closest@) =~= seq!["primary"@] + c0);
        } else if chars_eq_str(&n, "right") {
            closest.insert(0, "secondary");
            assert(names_view(closest@) =~= seq!["secondary"@] + c0);
        } else if chars_eq_str(&n, "middle") {
            closest.insert(0, "auxiliary");
            assert(names_view(closest@) =~= seq!["auxiliary"@] + c0);
        }
        let mut d = dedup_names(&closest);
        d.truncate(3);
        assert(names_view(d@) =~= (if dedup_runs(names_view(closest@)).len() > 3 { dedup_runs(names_view(closest@)).take(3) } else { dedup_runs(names_view(closest@)) }));
        closest = d;
    }
    let mut out = String::new();
    out.append("Invalid ");
    out.append(kind);
    out.append(" '");
    out.append(value);
    out.append("'. Closest matches: ");
    let c = join_names(&closest, ", ");
    out.append(c.as_str());
    out.append(". Supported values: ");
    let all_names = slice_to_vec(candidates);
    let all = join_names(&all_names, ", ");
    out.append(all.as_str());
    out.append(".");
    out
}

fn slice_to_vec<'a>(s: &[&'a str]) -> (r: Vec<&'a str>)
    ensures
        r@ == s@,
{
    let mut out: Vec<&'a str> = Vec::new();
    let mut i: usize = 0;
    while i < s.len()
        invariant
            i <= s@.len(),
            out@ == s@.take(i as int),
        decreases s@.len() - i,
    {
        out.push(s[i]);
        assert(s@.take(i + 1) == s@.take(i as int).push(s@[i as int]));
        i = i + 1;
    }
    assert(s@.take(s@.len() as int) == s@);
    out
}

/// The names of mouse buttons that injected events accept.
pub open spec fn button_names() -> Seq<Seq<char>> {
    seq!["primary"@, "secondary"@, "auxiliary"@, "fourth"@, "fifth"@]
}

/// The names of key states that injected events accept.
pub open spec fn state_names() -> Seq<Seq<char>> {
    seq!["pressed"@, "released"@]
}

/// The names of key locations that injected events accept.
pub open spec fn location_names() -> Seq<Seq<char>> {
    seq!["standard"@, "left"@, "right"@, "numpad"@]
}

/// What parsing a mouse button name gives.
pub open spec fn parsed_button(raw: Seq<char>) -> Option<InjectMouseButton> {
    let n = normalized(raw);
    if n == "primary"@ {
        Some(InjectMouseButton::Primary)
    } else if n == "secondary"@ {
        Some(InjectMouseButton::Secondary)
    } else if n == "auxiliary"@ {
        Some(InjectMouseButton::Auxiliary)
    } else if n == "fourth"@ {
        Some(InjectMouseButton::Fourth)
    } else if n == "fifth"@ {
        Some(InjectMouseButton::Fifth)
    } else {
        None
    }
}

/// What parsing a key state name gives.
pub open spec fn parsed_state(raw: Seq<char>) -> Option<InjectElementState> {
    let n = normalized(raw);
    if n == "pressed"@ {
        Some(InjectElementState::Pressed)
    } else if n == "released"@ {
        Some(InjectElementState::Released)
    } else {
        None
    }
}

/// What parsing a key location name gives.
pub open spec fn parsed_location(raw: Seq<char>) -> Option<InjectKeyLocation> {
    let n = normalized(raw);
    if n == "standard"@ {
        Some(InjectKeyLocation::Standard)
    } else if n == "left"@ {
        Some(InjectKeyLocation::Left)
    } else if n == "right"@ {
        Some(InjectKeyLocation::Right)
    } else if n == "numpad"@ {
        Some(InjectKeyLocation::Numpad)
    } else {
        None
    }
}

/// A `Result` that is `Ok` exactly when `parsed` is, with the given error text otherwise.
pub open spec fn parse_outcome<T>(r: Result<T, String>, parsed: Option<T>, err: Seq<char>) -> bool {
    match parsed {
        Some(v) => r == Ok::<T, String>(v),
        None => r is Err && r->Err_0@ == err,
    }
}

/// Parses a mouse button name (case and punctuation are ignored); an
/// unknown name gives an error that lists the closest names.
pub fn parse_mouse_button(raw: &str) -> (r: Result<InjectMouseButton, String>)
    requires
        raw@.len() < usize::MAX,
    ensures
        parse_outcome(r, parsed_button(raw@), enum_error_text("button"@, raw@, button_names())),
{
    let n = normalize_chars(&chars_of(raw));
    if chars_eq_str(&n, "primary") {
        return Ok(InjectMouseButton::Primary);
    }
    if chars_eq_str(&n, "secondary") {
        return Ok(InjectMouseButton::Secondary);
    }
    if chars_eq_str(&n, "auxiliary") {
        return Ok(InjectMouseButton::Auxiliary);
    }
    if chars_eq_str(&n, "fourth") {
        return Ok(InjectMouseButton::Fourth);
    }
    if chars_eq_str(&n, "fifth") {
        return Ok(InjectMouseButton::Fifth);
    }
    let candidates = vec!["primary", "secondary", "auxiliary", "fourth", "fifth"];
    proof {
        reveal_strlit("primary");
        reveal_strlit("secondary");
        reveal_strlit("auxiliary");
        reveal_strlit("fourth");
        reveal_strlit("fifth");
        assert(names_view(candidates@) =~= button_names());
    }
    Err(enum_error_message("button", raw, candidates.as_slice()))
}

/// Parses a key state name (case and punctuation are ignored); an unknown
/// name gives an error that lists the closest names.
pub fn parse_element_state(raw: &str) -> (r: Result<InjectElementState, String>)
    requires
        raw@.len() < usize::MAX,
    ensures
        parse_outcome(r, parsed_state(raw@), enum_error_text("state"@, raw@, state_names())),
{
    let n = normalize_chars(&chars_of(raw));
    if chars_eq_str(&n, "pressed") {
        return Ok(InjectElementState::Pressed);
    }
    if chars_eq_str(&n, "released") {
        return Ok(InjectElementState::Released);
    }
    let candidates = vec!["pressed", "released"];
    proof {
        reveal_strlit("pressed");
        reveal_strlit("released");
        assert(names_view(candidates@) =~= state_names());
    }
    Err(enum_error_message("state", raw, candidates.as_slice()))
}

/// Parses a key location name (case and punctuation are ignored); an
/// unknown name gives an error that lists the closest names.
pub fn parse_key_location(raw: &str) -> (r: Result<InjectKeyLocation, String>)
    requires
        raw@.len() < usize::MAX,
    ensures
        parse_outcome(r, parsed_location(raw@), enum_error_text("location"@, raw@, location_names())),
{
    let n = normalize_chars(&chars_of(raw));
    if chars_eq_str(&n, "standard") {
        return Ok(InjectKeyLocation::Standard);
    }
    if chars_eq_str(&n, "left") {
        return Ok(InjectKeyLocation::Left);
    }
    if chars_eq_str(&n, "right") {
        return Ok(InjectKeyLocation::Right);
    }
    if chars_eq_str(&n, "numpad") {
        return Ok(InjectKeyLocation::Numpad);
    }
    let candidates = vec!["standard", "left", "right", "numpad"];
    proof {
        reveal_strlit("standard");
        reveal_strlit("left");
        reveal_strlit("right");
        reveal_strlit("numpad");
        assert(names_view(candidates@) =~= location_names());
    }
    Err(enum_error_message("location", raw, candidates.as_slice()))
}

/// The text a keyboard injection types: the given text unless it is empty,
/// else what the key itself types.
pub open spec fn chars_payload(chars: Option<Seq<char>>, key: Seq<char>) -> Option<Seq<char>> {
    match chars {
        Some(t) => if t.len() > 0 { Some(t) } else { receive_chars_of(key) },
        None => receive_chars_of(key),
    }
}

pub open spec fn opt_view(s: Option<String>) -> Option<Seq<char>> {
    match s {
        Some(t) => Some(t@),
        None => None,
    }
}

/// The text a keyboard injection types: the given text unless it is empty,
/// else what the key itself types.
pub fn resolve_chars_payload(chars: Option<String>, key: &str) -> (r: Option<String>)
    ensures
        opt_view(r) == chars_payload(opt_view(chars), key@),
{
    match chars {
        Some(text) => {
            if text.as_str().unicode_len() > 0 {
                Some(text)
            } else {
                infer_receive_chars_from_key(key)
            }
        }
        None => infer_receive_chars_from_key(key),
    }
}

/// The logical key view of a parsed key.
pub open spec fn virtual_key_view(key: Seq<char>) -> VirtualKeyView {
    match crate::key_mapping::named_key_of_name(normalized(key)) {
        Some(k) => VirtualKeyView::Named(k),
        None => VirtualKeyView::Character(key),
    }
}

/// The message for a key name whose physical key cannot be derived.
pub open spec fn underivable_key_message(key: Seq<char>) -> Seq<char> {
    "Cannot derive physical_key from key '"@ + key
        + "'. Use `raw_keyboard_input` with explicit `physical_key` (e.g. KeyA, Digit1, Enter)."@
}

/// The message for a raw key name whose physical key cannot be derived.
pub open spec fn raw_underivable_key_message(key: Seq<char>) -> Seq<char> {
    "Cannot derive physical_key from key '"@ + key
        + "'. Provide `physical_key` with W3C code names (e.g. KeyA, Digit1, Enter)."@
}

/// The key events of one press-and-release of `key`, with the typed text between.
pub open spec fn key_press_events(wnd_id: u64, key: Seq<char>, physical: PhysicalKey, text: Option<Seq<char>>) -> Seq<UiEventView> {
    let down = UiEventView::KeyBoard {
        wnd_id,
        key: virtual_key_view(key),
        state: ElementState::Pressed,
        physical_key: physical,
        is_repeat: false,
        location: KeyLocation::Standard,
    };
    let up = UiEventView::KeyBoard {
        wnd_id,
        key: virtual_key_view(key),
        state: ElementState::Released,
        physical_key: physical,
        is_repeat: false,
        location: KeyLocation::Standard,
    };
    match text {
        Some(t) => seq![down, UiEventView::ReceiveChars { wnd_id, chars: t }, up],
        None => seq![down, up],
    }
}

/// A `Result` of events: exactly the events `ok` when it is `Ok`, or the error text.
pub open spec fn events_outcome(r: Result<Vec<UiEvent>, String>, ok: Result<Seq<UiEventView>, Seq<char>>) -> bool {
    match ok {
        Ok(evs) => r is Ok && events_view(r->Ok_0@) == evs,
        Err(msg) => r is Err && r->Err_0@ == msg,
    }
}

/// What a high-level keyboard injection becomes.
pub open spec fn keyboard_input_outcome(wnd_id: u64, key: Seq<char>, chars: Option<Seq<char>>) -> Result<Seq<UiEventView>, Seq<char>> {
    if crate::key_mapping::named_key_of_name(normalized(key)) is None && key.len() != 1 {
        Err(key_error_message(key))
    } else if physical_key_of(key) is None {
        Err(underivable_key_message(key))
    } else {
        Ok(key_press_events(wnd_id, key, physical_key_of(key)->0, chars_payload(chars, key)))
    }
}

fn keyboard_event(wnd_id: u64, key: VirtualKey, state: ElementState, physical_key: PhysicalKey, is_repeat: bool, location: KeyLocation) -> (r: UiEvent)
    ensures
        r@ == (UiEventView::KeyBoard { wnd_id, key: key@, state, physical_key, is_repeat, location }),
{
    UiEvent::KeyBoard { wnd_id, key, state, physical_key, is_repeat, location }
}

proof fn lemma_virtual_key_view(r: Option<VirtualKey>, key: Seq<char>)
    requires
        virtual_key_of(r, key),
        r is Some,
    ensures
        r->0@ == virtual_key_view(key),
{
}

/// The window events of pressing and releasing `key`, with the text it
/// types in between; an error if the key name is unknown or has no
/// physical key.
pub fn build_keyboard_input_events(window_id: u64, key: String, chars: Option<String>) -> (r: Result<Vec<UiEvent>, String>)
    requires
        key@.len() < usize::MAX,
    ensures
        events_outcome(r, keyboard_input_outcome(window_id, key@, opt_view(chars))),
{
    let key_value = match parse_virtual_key(key.as_str()) {
        Some(v) => v,
        None => return Err(keyboard_key_error(key.as_str())),
    };
    proof {
        lemma_virtual_key_view(Some(key_value), key@);
    }
    let physical_key = match derive_physical_key(key.as_str()) {
        Some(p) => p,
        None => {
            let mut msg = String::new();
            msg.append("Cannot derive physical_key from key '");
            msg.append(key.as_str());
            msg.append("'. Use `raw_keyboard_input` with explicit `physical_key` (e.g. KeyA, Digit1, Enter).");
            return Err(msg);
        }
    };
    let mut events: Vec<UiEvent> = Vec::new();
    events.push(keyboard_event(window_id, key_value.duplicate(), ElementState::Pressed, physical_key, false, KeyLocation::Standard));
    let text = resolve_chars_payload(chars, key.as_str());
    match text {
        Some(t) => {
            events.push(UiEvent::ReceiveChars { wnd_id: window_id, chars: t });
        }
        None => {}
    }
    events.push(keyboard_event(window_id, key_value, ElementState::Released, physical_key, false, KeyLocation::Standard));
    assert(events_view(events@) =~= key_press_events(window_id, key@, physical_key, chars_payload(opt_view(chars), key@)));
    Ok(events)
}

/// What a low-level keyboard injection becomes.
pub open spec fn raw_keyboard_input_outcome(
    wnd_id: u64,
    key: Seq<char>,
    physical_key: Option<Seq<char>>,
    state: InjectElementState,
    is_repeat: bool,
    location: InjectKeyLocation,
    chars: Option<Seq<char>>,
) -> Result<Seq<UiEventView>, Seq<char>> {
    if crate::key_mapping::named_key_of_name(normalized(key)) is None && key.len() != 1 {
        Err(key_error_message(key))
    } else {
        let physical: Result<PhysicalKey, Seq<char>> = match physical_key {
            Some(name) => match key_code_of_name(normalized(name)) {
                Some(code) => Ok(PhysicalKey::Code(code)),
                None => Err(physical_key_error_message(name)),
            },
            None => match physical_key_of(key) {
                Some(p) => Ok(p),
                None => Err(raw_underivable_key_message(key)),
            },
        };
        match physical {
            Ok(p) => {
                let ev = UiEventView::KeyBoard {
                    wnd_id,
                    key: virtual_key_view(key),
                    state: state_of(state),
                    physical_key: p,
                    is_repeat,
                    location: location_of(location),
                };
                let text = chars_payload(chars, key);
                if state == InjectElementState::Pressed && text is Some {
                    Ok(seq![ev, UiEventView::ReceiveChars { wnd_id, chars: text->0 }])
                } else {
                    Ok(seq![ev])
                }
            },
            Err(msg) => Err(msg),
        }
    }
}

/// The window events of one raw key state change with an explicit or
/// derived physical key, followed by the typed text on a press; an error if
/// a key name is unknown.
pub fn build_raw_keyboard_input_events(
    window_id: u64,
    key: String,
    physical_key: Option<String>,
    state: InjectElementState,
    is_repeat: bool,
    location: InjectKeyLocation,
    chars: Option<String>,
) -> (r: Result<Vec<UiEvent>, String>)
    requires
        key@.len() < usize::MAX,
        physical_key is Some ==> physical_key->0@.len() < usize::MAX,
    ensures
        events_outcome(r, raw_keyboard_input_outcome(window_id, key@, opt_view(physical_key), state, is_repeat, location, opt_view(chars))),
{
    let key_value = match parse_virtual_key(key.as_str()) {
        Some(v) => v,
        None => return Err(keyboard_key_error(key.as_str())),
    };
    proof {
        lemma_virtual_key_view(Some(key_value), key@);
    }
    let physical = match physical_key {
        Some(value) => match parse_key_code(value.as_str()) {
            Some(code) => PhysicalKey::Code(code),
            None => return Err(keyboard_physical_key_error(value.as_str())),
        },
        None => match derive_physical_key(key.as_str()) {
            Some(p) => p,
            None => {
                let mut msg = String::new();
                msg.append("Cannot derive physical_key from key '");
                msg.append(key.as_str());
                msg.append("'. Provide `physical_key` with W3C code names (e.g. KeyA, Digit1, Enter).");
                return Err(msg);
            }
        },
    };
    let mut events: Vec<UiEvent> = Vec::new();
    events.push(keyboard_event(window_id, key_value, element_state(state), physical, is_repeat, key_location(location)));
    if matches!(state, InjectElementState::Pressed) {
        let text = resolve_chars_payload(chars, key.as_str());
        match text {
            Some(t) => {
                events.push(UiEvent::ReceiveChars { wnd_id: window_id, chars: t });
            }
            None => {}
        }
    }
    assert(events_view(events@) =~= raw_keyboard_input_outcome(window_id, key@, opt_view(physical_key), state, is_repeat, location, opt_view(chars))->Ok_0);
    Ok(events)
}

/// The keyboard modifiers an injected modifier change names.
pub fn modifiers_state(shift: bool, ctrl: bool, alt: bool, logo: bool) -> (r: ModifiersState)
    ensures
        r.bits == (if shift { 0x4u32 } else { 0u32 }) | (if ctrl { 0x20u32 } else { 0u32 }) | (if alt { 0x100u32 } else { 0u32 }) | (if logo { 0x800u32 } else { 0u32 }),
{
    let mut state = ModifiersState::empty();
    if shift {
        state = state.union(ModifiersState::shift());
    }
    if ctrl {
        state = state.union(ModifiersState::control());
    }
    if alt {
        state = state.union(ModifiersState::alt());
    }
    if logo {
        state = state.union(ModifiersState::logo());
    }
    proof {
        let s = (if shift { 0x4u32 } else { 0u32 });
        let c = (if ctrl { 0x20u32 } else { 0u32 });
        let a = (if alt { 0x100u32 } else { 0u32 });
        let l = (if logo { 0x800u32 } else { 0u32 });
        assert(0u32 | s == s) by (bit_vector);
        assert(forall|x: u32| #![auto] x | 0u32 == x) by (bit_vector);
    }
    state
}

/// The window events of one click of `button` (press then release), after a
/// cursor move when the click has a position.
pub fn click_events(window_id: u64, button: InjectMouseButton, times: usize) -> (r: Vec<UiEvent>)
    requires
        times <= 2,
    ensures
        r@.len() == 2 * times,
        forall|k: int| 0 <= k < r@.len() ==> (#[trigger] r@[k])@ == (UiEventView::MouseInput {
            wnd_id: window_id,
            device_id: RibirDeviceId::Dummy,
            button: MouseButtons { bits: button_bits(button) },
            state: if k % 2 == 0 { ElementState::Pressed } else { ElementState::Released },
        }),
{
    let mapped = mouse_button(button);
    let mut out: Vec<UiEvent> = Vec::new();
    let mut i: usize = 0;
    while i < times
        invariant
            times <= 2,
            i <= times,
            mapped.bits == button_bits(button),
            out@.len() == 2 * i,
            forall|k: int| 0 <= k < out@.len() ==> (#[trigger] out@[k])@ == (UiEventView::MouseInput {
                wnd_id: window_id,
                device_id: RibirDeviceId::Dummy,
                button: MouseButtons { bits: button_bits(button) },
                state: if k % 2 == 0 { ElementState::Pressed } else { ElementState::Released },
            }),
        decreases times - i,
    {
        out.push(UiEvent::MouseInput { wnd_id: window_id, device_id: RibirDeviceId::Dummy, button: mapped, state: ElementState::Pressed });
        out.push(UiEvent::MouseInput { wnd_id: window_id, device_id: RibirDeviceId::Dummy, button: mapped, state: ElementState::Released });
        i = i + 1;
    }
    out
}

/// An injected input event that needs no position: those with a position
/// are resolved against the window's layout first. A click here is only
/// its presses and releases.
#[derive(Debug)]
pub enum InjectedInput {
    CursorLeft,
    MouseInput { button: InjectMouseButton, state: InjectElementState },
    KeyboardInput { key: String, chars: Option<String> },
    RawKeyboardInput {
        key: String,
        physical_key: Option<String>,
        state: InjectElementState,
        is_repeat: bool,
        location: InjectKeyLocation,
        chars: Option<String>,
    },
    Click { button: InjectMouseButton },
    DoubleClick { button: InjectMouseButton },
    Chars { chars: String },
    ModifiersChanged { shift: bool, ctrl: bool, alt: bool, logo: bool },
    RedrawRequest { force: bool },
}

/// `n` clicks of `button`: press, release, press, release...
pub open spec fn click_seq(wnd_id: u64, button: InjectMouseButton, n: nat) -> Seq<UiEventView> {
    Seq::new(2 * n, |k: int| UiEventView::MouseInput {
        wnd_id,
        device_id: RibirDeviceId::Dummy,
        button: MouseButtons { bits: button_bits(button) },
        state: if k % 2 == 0 { ElementState::Pressed } else { ElementState::Released },
    })
}

/// The modifier bits that an injected modifier change names.
pub open spec fn modifier_bits(shift: bool, ctrl: bool, alt: bool, logo: bool) -> u32 {
    (if shift { 0x4u32 } else { 0u32 }) | (if ctrl { 0x20u32 } else { 0u32 }) | (if alt { 0x100u32 } else { 0u32 }) | (
    if logo { 0x800u32 } else { 0u32 })
}

/// The window events that an injected input becomes, or why it cannot.
pub open spec fn injected_outcome(wnd_id: u64, e: InjectedInput) -> Result<Seq<UiEventView>, Seq<char>> {
    match e {
        InjectedInput::CursorLeft => Ok(seq![UiEventView::CursorLeft { wnd_id }]),
        InjectedInput::MouseInput { button, state } => Ok(seq![UiEventView::MouseInput {
            wnd_id,
            device_id: RibirDeviceId::Dummy,
            button: MouseButtons { bits: button_bits(button) },
            state: state_of(state),
        }]),
        InjectedInput::KeyboardInput { key, chars } => keyboard_input_outcome(wnd_id, key@, opt_view(chars)),
        InjectedInput::RawKeyboardInput { key, physical_key, state, is_repeat, location, chars } => raw_keyboard_input_outcome(
            wnd_id,
            key@,
            opt_view(physical_key),
            state,
            is_repeat,
            location,
            opt_view(chars),
        ),
        InjectedInput::Click { button } => Ok(click_seq(wnd_id, button, 1)),
        InjectedInput::DoubleClick { button } => Ok(click_seq(wnd_id, button, 2)),
        InjectedInput::Chars { chars } => Ok(seq![UiEventView::ReceiveChars { wnd_id, chars: chars@ }]),
        InjectedInput::ModifiersChanged { shift, ctrl, alt, logo } => Ok(seq![UiEventView::ModifiersChanged {
            wnd_id,
            state: ModifiersState { bits: modifier_bits(shift, ctrl, alt, logo) },
        }]),
        InjectedInput::RedrawRequest { force } => Ok(seq![UiEventView::RedrawRequest {
            wnd_id,
            demand: if force { RedrawDemand::Force } else { RedrawDemand::Normal },
        }]),
    }
}

/// The texts of an injected input fit in memory with room to spare.
pub open spec fn injected_texts_fit(e: InjectedInput) -> bool {
    match e {
        InjectedInput::KeyboardInput { key, .. } => key@.len() < usize::MAX,
        InjectedInput::RawKeyboardInput { key, physical_key, .. } => key@.len() < usize::MAX && (physical_key is Some
            ==> physical_key->0@.len() < usize::MAX),
        _ => true,
    }
}

/// The window events that an injected input becomes; an error when a key
/// name is unknown.
pub fn injected_to_ui_events(window_id: u64, event: InjectedInput) -> (r: Result<Vec<UiEvent>, String>)
    requires
        injected_texts_fit(event),
    ensures
        events_outcome(r, injected_outcome(window_id, event)),
{
    let ghost e = event;
    match event {
        InjectedInput::CursorLeft => {
            let v = vec![UiEvent::CursorLeft { wnd_id: window_id }];
            assert(events_view(v@) =~= seq![UiEventView::CursorLeft { wnd_id: window_id }]);
            Ok(v)
        },
        InjectedInput::MouseInput { button, state } => {
            let v = vec![UiEvent::MouseInput {
                wnd_id: window_id,
                device_id: RibirDeviceId::Dummy,
                button: mouse_button(button),
                state: element_state(state),
            }];
            assert(events_view(v@) =~= injected_outcome(window_id, e)->Ok_0);
            Ok(v)
        },
        InjectedInput::KeyboardInput { key, chars } => build_keyboard_input_events(window_id, key, chars),
        InjectedInput::RawKeyboardInput { key, physical_key, state, is_repeat, location, chars } => {
            build_raw_keyboard_input_events(window_id, key, physical_key, state, is_repeat, location, chars)
        },
        InjectedInput::Click { button } => {
            let v = click_events(window_id, button, 1);
            assert(events_view(v@) =~= click_seq(window_id, button, 1));
            Ok(v)
        },
        InjectedInput::DoubleClick { button } => {
            let v = click_events(window_id, button, 2);
            assert(events_view(v@) =~= click_seq(window_id, button, 2));
            Ok(v)
        },
        InjectedInput::Chars { chars } => {
            let v = vec![UiEvent::ReceiveChars { wnd_id: window_id, chars }];
            assert(events_view(v@) =~= injected_outcome(window_id, e)->Ok_0);
            Ok(v)
        },
        InjectedInput::ModifiersChanged { shift, ctrl, alt, logo } => {
            let v = vec![UiEvent::ModifiersChanged { wnd_id: window_id, state: modifiers_state(shift, ctrl, alt, logo) }];
            assert(events_view(v@) =~= injected_outcome(window_id, e)->Ok_0);
            Ok(v)
        },
        InjectedInput::RedrawRequest { force } => {
            let v = vec![UiEvent::RedrawRequest { wnd_id: window_id, demand: RedrawDemand::from_force(force) }];
            assert(events_view(v@) =~= injected_outcome(window_id, e)->Ok_0);
            Ok(v)
        },
    }
}

/// Where injecting a list of events stands: how many window events the
/// event loop took so far, and the error that stopped the injection, if
/// one did. Delays are waited out by the caller and change nothing here.
#[derive(Debug)]
pub struct InjectRun {
    pub accepted: usize,
    pub stopped: Option<String>,
}

/// The answer to an injection with no window to inject into.
pub fn inject_without_window() -> (r: Result<InjectEventsResult, String>)
    ensures
        r matches Err(m) && m@ == "No active window found"@,
{
    Err("No active window found".to_owned())
}

impl InjectRun {
    /// An injection that has neither sent nor failed anything yet.
    pub fn new() -> (r: InjectRun)
        ensures
            r.accepted == 0,
            r.stopped is None,
    {
        InjectRun { accepted: 0, stopped: None }
    }

    /// Whether the injection stopped on an error; no further event is then
    /// converted or sent.
    pub fn is_stopped(&self) -> (r: bool)
        ensures
            r == self.stopped is Some,
    {
        self.stopped.is_some()
    }

    /// The next injected event became `converted`: the window events to hand
    /// to the event loop, in order, or the error that stops the injection
    /// (and then there is nothing to send).
    pub fn converted(&mut self, converted: Result<Vec<UiEvent>, String>) -> (r: Vec<UiEvent>)
        requires
            old(self).stopped is None,
        ensures
            final(self).accepted == old(self).accepted,
            match converted {
                Ok(events) => r == events && final(self).stopped is None,
                Err(msg) => r@.len() == 0 && final(self).stopped == Some(msg),
            },
    {
        match converted {
            Ok(events) => events,
            Err(msg) => {
                self.stopped = Some(msg);
                Vec::new()
            },
        }
    }

    /// A window event was handed to the event loop, which `took` it or not.
    /// A taken event counts; a refused one stops the injection.
    pub fn sent(&mut self, took: bool)
        requires
            old(self).stopped is None,
            old(self).accepted < usize::MAX,
        ensures
            took ==> final(self).accepted == old(self).accepted + 1 && final(self).stopped is None,
            !took ==> final(self).accepted == old(self).accepted
                && (final(self).stopped matches Some(m) && m@ == "Failed to send UiEvent to event loop"@),
    {
        if took {
            self.accepted = self.accepted + 1;
        } else {
            self.stopped = Some("Failed to send UiEvent to event loop".to_owned());
        }
    }

    /// The answer to the injection: the error that stopped it, or the
    /// number of window events the event loop took.
    pub fn finish(self) -> (r: Result<InjectEventsResult, String>)
        ensures
            match self.stopped {
                Some(m) => r == Err::<InjectEventsResult, String>(m),
                None => r == Ok::<InjectEventsResult, String>(InjectEventsResult { accepted: self.accepted }),
            },
    {
        match self.stopped {
            Some(m) => Err(m),
            None => Ok(InjectEventsResult { accepted: self.accepted }),
        }
    }
}

} // verus!
