//! Keyboard names: W3C `KeyboardEvent.key` and `KeyboardEvent.code` names
//! and the key values they stand for.
use vstd::prelude::*;

use crate::ranking::{closest_names, closest_names_of};
use crate::text::{joined, join_names, names_view, chars_eq_str, chars_of, normalize_chars, normalized, string_from_chars};

verus! {

/// A physical key code (a W3C `KeyboardEvent.code` value).
#[derive(Debug, Clone, Copy, PartialEq, Eq, Structural)]
pub enum KeyCode {
    Enter,
    Tab,
    Space,
    Escape,
    Backspace,
    Delete,
    ArrowUp,
    ArrowDown,
    ArrowLeft,
    ArrowRight,
    Home,
    End,
    PageUp,
    PageDown,
    Digit0,
    Digit1,
    Digit2,
    Digit3,
    Digit4,
    Digit5,
    Digit6,
    Digit7,
    Digit8,
    Digit9,
    KeyA,
    KeyB,
    KeyC,
    KeyD,
    KeyE,
    KeyF,
    KeyG,
    KeyH,
    KeyI,
    KeyJ,
    KeyK,
    KeyL,
    KeyM,
    KeyN,
    KeyO,
    KeyP,
    KeyQ,
    KeyR,
    KeyS,
    KeyT,
    KeyU,
    KeyV,
    KeyW,
    KeyX,
    KeyY,
    KeyZ,
}

/// A named logical key (a W3C `KeyboardEvent.key` value that is not a character).
#[derive(Debug, Clone, Copy, PartialEq, Eq, Structural)]
pub enum NamedKey {
    Enter,
    Tab,
    Space,
    Escape,
    Backspace,
    Delete,
    ArrowUp,
    ArrowDown,
    ArrowLeft,
    ArrowRight,
    Home,
    End,
    PageUp,
    PageDown,
}

/// The logical meaning of a key press.
#[derive(Debug, Clone, PartialEq, Eq)]
pub enum VirtualKey {
    Named(NamedKey),
    Character(String),
}

/// What a logical key holds: a named key, or the text of a character key.
pub enum VirtualKeyView {
    Named(NamedKey),
    Character(Seq<char>),
}

impl View for VirtualKey {
    type V = VirtualKeyView;

    open spec fn view(&self) -> VirtualKeyView {
        match self {
            VirtualKey::Named(k) => VirtualKeyView::Named(*k),
            VirtualKey::Character(s) => VirtualKeyView::Character(s@),
        }
    }
}

impl VirtualKey {
    /// A copy of this key.
    pub fn duplicate(&self) -> (r: VirtualKey)
        ensures
            r@ == self@,
    {
        match self {
            VirtualKey::Named(k) => VirtualKey::Named(*k),
            VirtualKey::Character(s) => VirtualKey::Character(s.clone()),
        }
    }
}

/// The physical key of a key press.
#[derive(Debug, Clone, Copy, PartialEq, Eq, Structural)]
pub enum PhysicalKey {
    Code(KeyCode),
}

/// Where a key sits on the keyboard.
#[derive(Debug, Clone, Copy, PartialEq, Eq, Structural)]
pub enum KeyLocation {
    Standard,
    Left,
    Right,
    Numpad,
}

/// The key code whose name is `n` (already normalized).
pub open spec fn key_code_of_name(n: Seq<char>) -> Option<KeyCode> {
    if n == "enter"@ {
        Some(KeyCode::Enter)
    } else if n == "tab"@ {
        Some(KeyCode::Tab)
    } else if n == "space"@ {
        Some(KeyCode::Space)
    } else if n == "escape"@ {
        Some(KeyCode::Escape)
    } else if n == "esc"@ {
        Some(KeyCode::Escape)
    } else if n == "backspace"@ {
        Some(KeyCode::Backspace)
    } else if n == "delete"@ {
        Some(KeyCode::Delete)
    } else if n == "arrowup"@ {
        Some(KeyCode::ArrowUp)
    } else if n == "arrowdown"@ {
        Some(KeyCode::ArrowDown)
    } else if n == "arrowleft"@ {
        Some(KeyCode::ArrowLeft)
    } else if n == "arrowright"@ {
        Some(KeyCode::ArrowRight)
    } else if n == "home"@ {
        Some(KeyCode::Home)
    } else if n == "end"@ {
        Some(KeyCode::End)
    } else if n == "pageup"@ {
        Some(KeyCode::PageUp)
    } else if n == "pagedown"@ {
        Some(KeyCode::PageDown)
    } else if n == "digit0"@ {
        Some(KeyCode::Digit0)
    } else if n == "digit1"@ {
        Some(KeyCode::Digit1)
    } else if n == "digit2"@ {
        Some(KeyCode::Digit2)
    } else if n == "digit3"@ {
        Some(KeyCode::Digit3)
    } else if n == "digit4"@ {
        Some(KeyCode::Digit4)
    } else if n == "digit5"@ {
        Some(KeyCode::Digit5)
    } else if n == "digit6"@ {
        Some(KeyCode::Digit6)
    } else if n == "digit7"@ {
        Some(KeyCode::Digit7)
    } else if n == "digit8"@ {
        Some(KeyCode::Digit8)
    } else if n == "digit9"@ {
        Some(KeyCode::Digit9)
    } else if n == "keya"@ {
        Some(KeyCode::KeyA)
    } else if n == "keyb"@ {
        Some(KeyCode::KeyB)
    } else if n == "keyc"@ {
        Some(KeyCode::KeyC)
    } else if n == "keyd"@ {
        Some(KeyCode::KeyD)
    } else if n == "keye"@ {
        Some(KeyCode::KeyE)
    } else if n == "keyf"@ {
        Some(KeyCode::KeyF)
    } else if n == "keyg"@ {
        Some(KeyCode::KeyG)
    } else if n == "keyh"@ {
        Some(KeyCode::KeyH)
    } else if n == "keyi"@ {
        Some(KeyCode::KeyI)
    } else if n == "keyj"@ {
        Some(KeyCode::KeyJ)
    } else if n == "keyk"@ {
        Some(KeyCode::KeyK)
    } else if n == "keyl"@ {
        Some(KeyCode::KeyL)
    } else if n == "keym"@ {
        Some(KeyCode::KeyM)
    } else if n == "keyn"@ {
        Some(KeyCode::KeyN)
    } else if n == "keyo"@ {
        Some(KeyCode::KeyO)
    } else if n == "keyp"@ {
        Some(KeyCode::KeyP)
    } else if n == "keyq"@ {
        Some(KeyCode::KeyQ)
    } else if n == "keyr"@ {
        Some(KeyCode::KeyR)
    } else if n == "keys"@ {
        Some(KeyCode::KeyS)
    } else if n == "keyt"@ {
        Some(KeyCode::KeyT)
    } else if n == "keyu"@ {
        Some(KeyCode::KeyU)
    } else if n == "keyv"@ {
        Some(KeyCode::KeyV)
    } else if n == "keyw"@ {
        Some(KeyCode::KeyW)
    } else if n == "keyx"@ {
        Some(KeyCode::KeyX)
    } else if n == "keyy"@ {
        Some(KeyCode::KeyY)
    } else if n == "keyz"@ {
        Some(KeyCode::KeyZ)
    } else {
        None
    }
}

/// The named key whose name is `n` (already normalized).
pub open spec fn named_key_of_name(n: Seq<char>) -> Option<NamedKey> {
    if n == "enter"@ {
        Some(NamedKey::Enter)
    } else if n == "tab"@ {
        Some(NamedKey::Tab)
    } else if n == "space"@ {
        Some(NamedKey::Space)
    } else if n == "spacebar"@ {
        Some(NamedKey::Space)
    } else if n == "escape"@ {
        Some(NamedKey::Escape)
    } else if n == "esc"@ {
        Some(NamedKey::Escape)
    } else if n == "backspace"@ {
        Some(NamedKey::Backspace)
    } else if n == "delete"@ {
        Some(NamedKey::Delete)
    } else if n == "arrowup"@ {
        Some(NamedKey::ArrowUp)
    } else if n == "arrowdown"@ {
        Some(NamedKey::ArrowDown)
    } else if n == "arrowleft"@ {
        Some(NamedKey::ArrowLeft)
    } else if n == "arrowright"@ {
        Some(NamedKey::ArrowRight)
    } else if n == "home"@ {
        Some(NamedKey::Home)
    } else if n == "end"@ {
        Some(NamedKey::End)
    } else if n == "pageup"@ {
        Some(NamedKey::PageUp)
    } else if n == "pagedown"@ {
        Some(NamedKey::PageDown)
    } else {
        None
    }
}

/// The key code of the key that types `c`.
pub open spec fn key_code_of_char(c: char) -> Option<KeyCode> {
    if c == 'a' || c == 'A' {
        Some(KeyCode::KeyA)
    } else if c == 'b' || c == 'B' {
        Some(KeyCode::KeyB)
    } else if c == 'c' || c == 'C' {
        Some(KeyCode::KeyC)
    } else if c == 'd' || c == 'D' {
        Some(KeyCode::KeyD)
    } else if c == 'e' || c == 'E' {
        Some(KeyCode::KeyE)
    } else if c == 'f' || c == 'F' {
        Some(KeyCode::KeyF)
    } else if c == 'g' || c == 'G' {
        Some(KeyCode::KeyG)
    } else if c == 'h' || c == 'H' {
        Some(KeyCode::KeyH)
    } else if c == 'i' || c == 'I' {
        Some(KeyCode::KeyI)
    } else if c == 'j' || c == 'J' {
        Some(KeyCode::KeyJ)
    } else if c == 'k' || c == 'K' {
        Some(KeyCode::KeyK)
    } else if c == 'l' || c == 'L' {
        Some(KeyCode::KeyL)
    } else if c == 'm' || c == 'M' {
        Some(KeyCode::KeyM)
    } else if c == 'n' || c == 'N' {
        Some(KeyCode::KeyN)
    } else if c == 'o' || c == 'O' {
        Some(KeyCode::KeyO)
    } else if c == 'p' || c == 'P' {
        Some(KeyCode::KeyP)
    } else if c == 'q' || c == 'Q' {
        Some(KeyCode::KeyQ)
    } else if c == 'r' || c == 'R' {
        Some(KeyCode::KeyR)
    } else if c == 's' || c == 'S' {
        Some(KeyCode::KeyS)
    } else if c == 't' || c == 'T' {
        Some(KeyCode::KeyT)
    } else if c == 'u' || c == 'U' {
        Some(KeyCode::KeyU)
    } else if c == 'v' || c == 'V' {
        Some(KeyCode::KeyV)
    } else if c == 'w' || c == 'W' {
        Some(KeyCode::KeyW)
    } else if c == 'x' || c == 'X' {
        Some(KeyCode::KeyX)
    } else if c == 'y' || c == 'Y' {
        Some(KeyCode::KeyY)
    } else if c == 'z' || c == 'Z' {
        Some(KeyCode::KeyZ)
    } else if c == '0' {
        Some(KeyCode::Digit0)
    } else if c == '1' {
        Some(KeyCode::Digit1)
    } else if c == '2' {
        Some(KeyCode::Digit2)
    } else if c == '3' {
        Some(KeyCode::Digit3)
    } else if c == '4' {
        Some(KeyCode::Digit4)
    } else if c == '5' {
        Some(KeyCode::Digit5)
    } else if c == '6' {
        Some(KeyCode::Digit6)
    } else if c == '7' {
        Some(KeyCode::Digit7)
    } else if c == '8' {
        Some(KeyCode::Digit8)
    } else if c == '9' {
        Some(KeyCode::Digit9)
    } else {
        None
    }
}

/// The logical key names that keyboard input accepts.
pub open spec fn logical_named_key_names() -> Seq<Seq<char>> {
    seq!["Enter"@, "Tab"@, "Space"@, "Escape"@, "Backspace"@, "Delete"@, "ArrowUp"@, "ArrowDown"@, "ArrowLeft"@, "ArrowRight"@, "Home"@, "End"@, "PageUp"@, "PageDown"@]
}

/// The physical key names that keyboard input accepts.
pub open spec fn physical_code_names() -> Seq<Seq<char>> {
    seq!["Enter"@, "Tab"@, "Space"@, "Escape"@, "Backspace"@, "Delete"@, "ArrowUp"@, "ArrowDown"@, "ArrowLeft"@, "ArrowRight"@, "Home"@, "End"@, "PageUp"@, "PageDown"@, "KeyA"@, "KeyB"@, "KeyC"@, "KeyD"@, "KeyE"@, "KeyF"@, "KeyG"@, "KeyH"@, "KeyI"@, "KeyJ"@, "KeyK"@, "KeyL"@, "KeyM"@, "KeyN"@, "KeyO"@, "KeyP"@, "KeyQ"@, "KeyR"@, "KeyS"@, "KeyT"@, "KeyU"@, "KeyV"@, "KeyW"@, "KeyX"@, "KeyY"@, "KeyZ"@, "Digit0"@, "Digit1"@, "Digit2"@, "Digit3"@, "Digit4"@, "Digit5"@, "Digit6"@, "Digit7"@, "Digit8"@, "Digit9"@]
}


/// The logical key names that keyboard input accepts.
pub fn supported_logical_named_keys() -> (r: Vec<&'static str>)
    ensures
        forall|k: int| 0 <= k < r@.len() ==> (#[trigger] r@[k])@.len() <= 10,
        names_view(r@) == logical_named_key_names(),
{
    let r = vec!["Enter", "Tab", "Space", "Escape", "Backspace", "Delete", "ArrowUp", "ArrowDown", "ArrowLeft", "ArrowRight", "Home", "End", "PageUp", "PageDown"];
    assert(names_view(r@) =~= logical_named_key_names());
    proof {
        reveal_strlit("Enter");
        reveal_strlit("Tab");
        reveal_strlit("Space");
        reveal_strlit("Escape");
        reveal_strlit("Backspace");
        reveal_strlit("Delete");
        reveal_strlit("ArrowUp");
        reveal_strlit("ArrowDown");
        reveal_strlit("ArrowLeft");
        reveal_strlit("ArrowRight");
        reveal_strlit("Home");
        reveal_strlit("End");
        reveal_strlit("PageUp");
        reveal_strlit("PageDown");
        assert(forall|k: int| 0 <= k < r@.len() ==> (#[trigger] r@[k])@ == names_view(r@)[k]);
    }
    r
}

/// The physical key names that keyboard input accepts.
pub fn supported_physical_codes() -> (r: Vec<&'static str>)
    ensures
        forall|k: int| 0 <= k < r@.len() ==> (#[trigger] r@[k])@.len() <= 10,
        names_view(r@) == physical_code_names(),
{
    let r = vec!["Enter", "Tab", "Space", "Escape", "Backspace", "Delete", "ArrowUp", "ArrowDown", "ArrowLeft", "ArrowRight", "Home", "End", "PageUp", "PageDown", "KeyA", "KeyB", "KeyC", "KeyD", "KeyE", "KeyF", "KeyG", "KeyH", "KeyI", "KeyJ", "KeyK", "KeyL", "KeyM", "KeyN", "KeyO", "KeyP", "KeyQ", "KeyR", "KeyS", "KeyT", "KeyU", "KeyV", "KeyW", "KeyX", "KeyY", "KeyZ", "Digit0", "Digit1", "Digit2", "Digit3", "Digit4", "Digit5", "Digit6", "Digit7", "Digit8", "Digit9"];
    assert(names_view(r@) =~= physical_code_names());
    proof {
        reveal_strlit("Enter");
        reveal_strlit("Tab");
        reveal_strlit("Space");
        reveal_strlit("Escape");
        reveal_strlit("Backspace");
        reveal_strlit("Delete");
        reveal_strlit("ArrowUp");
        reveal_strlit("ArrowDown");
        reveal_strlit("ArrowLeft");
        reveal_strlit("ArrowRight");
        reveal_strlit("Home");
        reveal_strlit("End");
        reveal_strlit("PageUp");
        reveal_strlit("PageDown");
        reveal_strlit("KeyA");
        reveal_strlit("KeyB");
        reveal_strlit("KeyC");
        reveal_strlit("KeyD");
        reveal_strlit("KeyE");
        reveal_strlit("KeyF");
        reveal_strlit("KeyG");
        reveal_strlit("KeyH");
        reveal_strlit("KeyI");
        reveal_strlit("KeyJ");
        reveal_strlit("KeyK");
        reveal_strlit("KeyL");
        reveal_strlit("KeyM");
        reveal_strlit("KeyN");
        reveal_strlit("KeyO");
        reveal_strlit("KeyP");
        reveal_strlit("KeyQ");
        reveal_strlit("KeyR");
        reveal_strlit("KeyS");
        reveal_strlit("KeyT");
        reveal_strlit("KeyU");
        reveal_strlit("KeyV");
        reveal_strlit("KeyW");
        reveal_strlit("KeyX");
        reveal_strlit("KeyY");
        reveal_strlit("KeyZ");
        reveal_strlit("Digit0");
        reveal_strlit("Digit1");
        reveal_strlit("Digit2");
        reveal_strlit("Digit3");
        reveal_strlit("Digit4");
        reveal_strlit("Digit5");
        reveal_strlit("Digit6");
        reveal_strlit("Digit7");
        reveal_strlit("Digit8");
        reveal_strlit("Digit9");
        assert(forall|k: int| 0 <= k < r@.len() ==> (#[trigger] r@[k])@ == names_view(r@)[k]);
    }
    r
}

/// The name with surrounding whitespace removed, only ASCII letters and digits
/// kept, lower-cased.
pub fn normalize_key_name(name: &str) -> (r: String)
    ensures
        r@ == normalized(name@),
{
    let v = normalize_chars(&chars_of(name));
    string_from_chars(&v)
}

fn key_code_of_normalized(n: &Vec<char>) -> (r: Option<KeyCode>)
    ensures
        r == key_code_of_name(n@),
{
    if chars_eq_str(n, "enter") {
        return Some(KeyCode::Enter);
    }
    if chars_eq_str(n, "tab") {
        return Some(KeyCode::Tab);
    }
    if chars_eq_str(n, "space") {
        return Some(KeyCode::Space);
    }
    if chars_eq_str(n, "escape") {
        return Some(KeyCode::Escape);
    }
    if chars_eq_str(n, "esc") {
        return Some(KeyCode::Escape);
    }
    if chars_eq_str(n, "backspace") {
        return Some(KeyCode::Backspace);
    }
    if chars_eq_str(n, "delete") {
        return Some(KeyCode::Delete);
    }
    if chars_eq_str(n, "arrowup") {
        return Some(KeyCode::ArrowUp);
    }
    if chars_eq_str(n, "arrowdown") {
        return Some(KeyCode::ArrowDown);
    }
    if chars_eq_str(n, "arrowleft") {
        return Some(KeyCode::ArrowLeft);
    }
    if chars_eq_str(n, "arrowright") {
        return Some(KeyCode::ArrowRight);
    }
    if chars_eq_str(n, "home") {
        return Some(KeyCode::Home);
    }
    if chars_eq_str(n, "end") {
        return Some(KeyCode::End);
    }
    if chars_eq_str(n, "pageup") {
        return Some(KeyCode::PageUp);
    }
    if chars_eq_str(n, "pagedown") {
        return Some(KeyCode::PageDown);
    }
    if chars_eq_str(n, "digit0") {
        return Some(KeyCode::Digit0);
    }
    if chars_eq_str(n, "digit1") {
        return Some(KeyCode::Digit1);
    }
    if chars_eq_str(n, "digit2") {
        return Some(KeyCode::Digit2);
    }
    if chars_eq_str(n, "digit3") {
        return Some(KeyCode::Digit3);
    }
    if chars_eq_str(n, "digit4") {
        return Some(KeyCode::Digit4);
    }
    if chars_eq_str(n, "digit5") {
        return Some(KeyCode::Digit5);
    }
    if chars_eq_str(n, "digit6") {
        return Some(KeyCode::Digit6);
    }
    if chars_eq_str(n, "digit7") {
        return Some(KeyCode::Digit7);
    }
    if chars_eq_str(n, "digit8") {
        return Some(KeyCode::Digit8);
    }
    if chars_eq_str(n, "digit9") {
        return Some(KeyCode::Digit9);
    }
    if chars_eq_str(n, "keya") {
        return Some(KeyCode::KeyA);
    }
    if chars_eq_str(n, "keyb") {
        return Some(KeyCode::KeyB);
    }
    if chars_eq_str(n, "keyc") {
        return Some(KeyCode::KeyC);
    }
    if chars_eq_str(n, "keyd") {
        return Some(KeyCode::KeyD);
    }
    if chars_eq_str(n, "keye") {
        return Some(KeyCode::KeyE);
    }
    if chars_eq_str(n, "keyf") {
        return Some(KeyCode::KeyF);
    }
    if chars_eq_str(n, "keyg") {
        return Some(KeyCode::KeyG);
    }
    if chars_eq_str(n, "keyh") {
        return Some(KeyCode::KeyH);
    }
    if chars_eq_str(n, "keyi") {
        return Some(KeyCode::KeyI);
    }
    if chars_eq_str(n, "keyj") {
        return Some(KeyCode::KeyJ);
    }
    if chars_eq_str(n, "keyk") {
        return Some(KeyCode::KeyK);
    }
    if chars_eq_str(n, "keyl") {
        return Some(KeyCode::KeyL);
    }
    if chars_eq_str(n, "keym") {
        return Some(KeyCode::KeyM);
    }
    if chars_eq_str(n, "keyn") {
        return Some(KeyCode::KeyN);
    }
    if chars_eq_str(n, "keyo") {
        return Some(KeyCode::KeyO);
    }
    if chars_eq_str(n, "keyp") {
        return Some(KeyCode::KeyP);
    }
    if chars_eq_str(n, "keyq") {
        return Some(KeyCode::KeyQ);
    }
    if chars_eq_str(n, "keyr") {
        return Some(KeyCode::KeyR);
    }
    if chars_eq_str(n, "keys") {
        return Some(KeyCode::KeyS);
    }
    if chars_eq_str(n, "keyt") {
        return Some(KeyCode::KeyT);
    }
    if chars_eq_str(n, "keyu") {
        return Some(KeyCode::KeyU);
    }
    if chars_eq_str(n, "keyv") {
        return Some(KeyCode::KeyV);
    }
    if chars_eq_str(n, "keyw") {
        return Some(KeyCode::KeyW);
    }
    if chars_eq_str(n, "keyx") {
        return Some(KeyCode::KeyX);
    }
    if chars_eq_str(n, "keyy") {
        return Some(KeyCode::KeyY);
    }
    if chars_eq_str(n, "keyz") {
        return Some(KeyCode::KeyZ);
    }
    None
}

fn named_key_of_normalized(n: &Vec<char>) -> (r: Option<NamedKey>)
    ensures
        r == named_key_of_name(n@),
{
    if chars_eq_str(n, "enter") {
        return Some(NamedKey::Enter);
    }
    if chars_eq_str(n, "tab") {
        return Some(NamedKey::Tab);
    }
    if chars_eq_str(n, "space") {
        return Some(NamedKey::Space);
    }
    if chars_eq_str(n, "spacebar") {
        return Some(NamedKey::Space);
    }
    if chars_eq_str(n, "escape") {
        return Some(NamedKey::Escape);
    }
    if chars_eq_str(n, "esc") {
        return Some(NamedKey::Escape);
    }
    if chars_eq_str(n, "backspace") {
        return Some(NamedKey::Backspace);
    }
    if chars_eq_str(n, "delete") {
        return Some(NamedKey::Delete);
    }
    if chars_eq_str(n, "arrowup") {
        return Some(NamedKey::ArrowUp);
    }
    if chars_eq_str(n, "arrowdown") {
        return Some(NamedKey::ArrowDown);
    }
    if chars_eq_str(n, "arrowleft") {
        return Some(NamedKey::ArrowLeft);
    }
    if chars_eq_str(n, "arrowright") {
        return Some(NamedKey::ArrowRight);
    }
    if chars_eq_str(n, "home") {
        return Some(NamedKey::Home);
    }
    if chars_eq_str(n, "end") {
        return Some(NamedKey::End);
    }
    if chars_eq_str(n, "pageup") {
        return Some(NamedKey::PageUp);
    }
    if chars_eq_str(n, "pagedown") {
        return Some(NamedKey::PageDown);
    }
    None
}

/// The key code that a physical key name stands for.
pub fn parse_key_code(name: &str) -> (r: Option<KeyCode>)
    ensures
        r == key_code_of_name(normalized(name@)),
{
    let n = normalize_chars(&chars_of(name));
    key_code_of_normalized(&n)
}

/// The named key that a logical key name stands for.
pub fn parse_named_key(name: &str) -> (r: Option<NamedKey>)
    ensures
        r == named_key_of_name(normalized(name@)),
{
    let n = normalize_chars(&chars_of(name));
    named_key_of_normalized(&n)
}

proof fn lemma_letter_key_name(x: char)
    requires
        'a' <= x <= 'z',
    ensures
        key_code_of_name("key"@.push(x)) == key_code_of_char(x),
{
    reveal_strlit("key");
        reveal_strlit("enter");
        reveal_strlit("tab");
        reveal_strlit("space");
        reveal_strlit("escape");
        reveal_strlit("esc");
        reveal_strlit("backspace");
        reveal_strlit("delete");
        reveal_strlit("arrowup");
        reveal_strlit("arrowdown");
        reveal_strlit("arrowleft");
        reveal_strlit("arrowright");
        reveal_strlit("home");
        reveal_strlit("end");
        reveal_strlit("pageup");
        reveal_strlit("pagedown");
        reveal_strlit("digit0");
        reveal_strlit("digit1");
        reveal_strlit("digit2");
        reveal_strlit("digit3");
        reveal_strlit("digit4");
        reveal_strlit("digit5");
        reveal_strlit("digit6");
        reveal_strlit("digit7");
        reveal_strlit("digit8");
        reveal_strlit("digit9");
        reveal_strlit("keya");
        reveal_strlit("keyb");
        reveal_strlit("keyc");
        reveal_strlit("keyd");
        reveal_strlit("keye");
        reveal_strlit("keyf");
        reveal_strlit("keyg");
        reveal_strlit("keyh");
        reveal_strlit("keyi");
        reveal_strlit("keyj");
        reveal_strlit("keyk");
        reveal_strlit("keyl");
        reveal_strlit("keym");
        reveal_strlit("keyn");
        reveal_strlit("keyo");
        reveal_strlit("keyp");
        reveal_strlit("keyq");
        reveal_strlit("keyr");
        reveal_strlit("keys");
        reveal_strlit("keyt");
        reveal_strlit("keyu");
        reveal_strlit("keyv");
        reveal_strlit("keyw");
        reveal_strlit("keyx");
        reveal_strlit("keyy");
        reveal_strlit("keyz");
    let n = "key"@.push(x);
    assert(n =~= seq!['k', 'e', 'y', x]);
    if x == 'a' {
        assert(n =~= "keya"@);
    } else if x == 'b' {
        assert(n =~= "keyb"@);
    } else if x == 'c' {
        assert(n =~= "keyc"@);
    } else if x == 'd' {
        assert(n =~= "keyd"@);
    } else if x == 'e' {
        assert(n =~= "keye"@);
    } else if x == 'f' {
        assert(n =~= "keyf"@);
    } else if x == 'g' {
        assert(n =~= "keyg"@);
    } else if x == 'h' {
        assert(n =~= "keyh"@);
    } else if x == 'i' {
        assert(n =~= "keyi"@);
    } else if x == 'j' {
        assert(n =~= "keyj"@);
    } else if x == 'k' {
        assert(n =~= "keyk"@);
    } else if x == 'l' {
        assert(n =~= "keyl"@);
    } else if x == 'm' {
        assert(n =~= "keym"@);
    } else if x == 'n' {
        assert(n =~= "keyn"@);
    } else if x == 'o' {
        assert(n =~= "keyo"@);
    } else if x == 'p' {
        assert(n =~= "keyp"@);
    } else if x == 'q' {
        assert(n =~= "keyq"@);
    } else if x == 'r' {
        assert(n =~= "keyr"@);
    } else if x == 's' {
        assert(n =~= "keys"@);
    } else if x == 't' {
        assert(n =~= "keyt"@);
    } else if x == 'u' {
        assert(n =~= "keyu"@);
    } else if x == 'v' {
        assert(n =~= "keyv"@);
    } else if x == 'w' {
        assert(n =~= "keyw"@);
    } else if x == 'x' {
        assert(n =~= "keyx"@);
    } else if x == 'y' {
        assert(n =~= "keyy"@);
    } else if x == 'z' {
        assert(n =~= "keyz"@);
    }
}

proof fn lemma_digit_key_name(x: char)
    requires
        '0' <= x <= '9',
    ensures
        key_code_of_name("digit"@.push(x)) == key_code_of_char(x),
{
    reveal_strlit("digit");
        reveal_strlit("enter");
        reveal_strlit("tab");
        reveal_strlit("space");
        reveal_strlit("escape");
        reveal_strlit("esc");
        reveal_strlit("backspace");
        reveal_strlit("delete");
        reveal_strlit("arrowup");
        reveal_strlit("arrowdown");
        reveal_strlit("arrowleft");
        reveal_strlit("arrowright");
        reveal_strlit("home");
        reveal_strlit("end");
        reveal_strlit("pageup");
        reveal_strlit("pagedown");
        reveal_strlit("digit0");
        reveal_strlit("digit1");
        reveal_strlit("digit2");
        reveal_strlit("digit3");
        reveal_strlit("digit4");
        reveal_strlit("digit5");
        reveal_strlit("digit6");
        reveal_strlit("digit7");
        reveal_strlit("digit8");
        reveal_strlit("digit9");
        reveal_strlit("keya");
        reveal_strlit("keyb");
        reveal_strlit("keyc");
        reveal_strlit("keyd");
        reveal_strlit("keye");
        reveal_strlit("keyf");
        reveal_strlit("keyg");
        reveal_strlit("keyh");
        reveal_strlit("keyi");
        reveal_strlit("keyj");
        reveal_strlit("keyk");
        reveal_strlit("keyl");
        reveal_strlit("keym");
        reveal_strlit("keyn");
        reveal_strlit("keyo");
        reveal_strlit("keyp");
        reveal_strlit("keyq");
        reveal_strlit("keyr");
        reveal_strlit("keys");
        reveal_strlit("keyt");
        reveal_strlit("keyu");
        reveal_strlit("keyv");
        reveal_strlit("keyw");
        reveal_strlit("keyx");
        reveal_strlit("keyy");
        reveal_strlit("keyz");
    let n = "digit"@.push(x);
    assert(n =~= seq!['d', 'i', 'g', 'i', 't', x]);
    if x == '0' {
        assert(n =~= "digit0"@);
    } else if x == '1' {
        assert(n =~= "digit1"@);
    } else if x == '2' {
        assert(n =~= "digit2"@);
    } else if x == '3' {
        assert(n =~= "digit3"@);
    } else if x == '4' {
        assert(n =~= "digit4"@);
    } else if x == '5' {
        assert(n =~= "digit5"@);
    } else if x == '6' {
        assert(n =~= "digit6"@);
    } else if x == '7' {
        assert(n =~= "digit7"@);
    } else if x == '8' {
        assert(n =~= "digit8"@);
    } else if x == '9' {
        assert(n =~= "digit9"@);
    }
}

/// The key that types a letter is the key named `key` followed by that
/// letter in lower case, whichever case is typed; the key that types a
/// digit is the key named `digit` followed by that digit. No other
/// character has a key.
pub proof fn law_char_key_is_the_named_key(c: char)
    ensures
        'a' <= c <= 'z' ==> key_code_of_char(c) == key_code_of_name("key"@.push(c)),
        'A' <= c <= 'Z' ==> key_code_of_char(c) == key_code_of_name("key"@.push(((c as u32) + 32) as char)),
        '0' <= c <= '9' ==> key_code_of_char(c) == key_code_of_name("digit"@.push(c)),
        key_code_of_char(c) is Some <==> ('a' <= c <= 'z' || 'A' <= c <= 'Z' || '0' <= c <= '9'),
{
    if 'a' <= c <= 'z' {
        lemma_letter_key_name(c);
    }
    if 'A' <= c <= 'Z' {
        let l = ((c as u32) + 32) as char;
        assert('a' <= l <= 'z');
        lemma_letter_key_name(l);
        assert(key_code_of_char(c) == key_code_of_char(l));
    }
    if '0' <= c <= '9' {
        lemma_digit_key_name(c);
    }
}

/// The key code of the key that types `c`.
pub fn char_to_key_code(c: char) -> (r: Option<KeyCode>)
    ensures
        r == key_code_of_char(c),
{
    match c {
        'a' | 'A' => Some(KeyCode::KeyA),
        'b' | 'B' => Some(KeyCode::KeyB),
        'c' | 'C' => Some(KeyCode::KeyC),
        'd' | 'D' => Some(KeyCode::KeyD),
        'e' | 'E' => Some(KeyCode::KeyE),
        'f' | 'F' => Some(KeyCode::KeyF),
        'g' | 'G' => Some(KeyCode::KeyG),
        'h' | 'H' => Some(KeyCode::KeyH),
        'i' | 'I' => Some(KeyCode::KeyI),
        'j' | 'J' => Some(KeyCode::KeyJ),
        'k' | 'K' => Some(KeyCode::KeyK),
        'l' | 'L' => Some(KeyCode::KeyL),
        'm' | 'M' => Some(KeyCode::KeyM),
        'n' | 'N' => Some(KeyCode::KeyN),
        'o' | 'O' => Some(KeyCode::KeyO),
        'p' | 'P' => Some(KeyCode::KeyP),
        'q' | 'Q' => Some(KeyCode::KeyQ),
        'r' | 'R' => Some(KeyCode::KeyR),
        's' | 'S' => Some(KeyCode::KeyS),
        't' | 'T' => Some(KeyCode::KeyT),
        'u' | 'U' => Some(KeyCode::KeyU),
        'v' | 'V' => Some(KeyCode::KeyV),
        'w' | 'W' => Some(KeyCode::KeyW),
        'x' | 'X' => Some(KeyCode::KeyX),
        'y' | 'Y' => Some(KeyCode::KeyY),
        'z' | 'Z' => Some(KeyCode::KeyZ),
        '0' => Some(KeyCode::Digit0),
        '1' => Some(KeyCode::Digit1),
        '2' => Some(KeyCode::Digit2),
        '3' => Some(KeyCode::Digit3),
        '4' => Some(KeyCode::Digit4),
        '5' => Some(KeyCode::Digit5),
        '6' => Some(KeyCode::Digit6),
        '7' => Some(KeyCode::Digit7),
        '8' => Some(KeyCode::Digit8),
        '9' => Some(KeyCode::Digit9),
        _ => None,
    }
}

/// What `parse_virtual_key` gives for `key`.
pub open spec fn virtual_key_of(r: Option<VirtualKey>, key: Seq<char>) -> bool {
    match named_key_of_name(normalized(key)) {
        Some(k) => r == Some(VirtualKey::Named(k)),
        None => if key.len() == 1 {
            match r {
                Some(VirtualKey::Character(s)) => s@ == key,
                _ => false,
            }
        } else {
            r is None
        },
    }
}

/// The logical key a key name stands for: a named key, or else the character
/// of a one-character name.
pub fn parse_virtual_key(key: &str) -> (r: Option<VirtualKey>)
    ensures
        virtual_key_of(r, key@),
{
    if let Some(named) = parse_named_key(key) {
        return Some(VirtualKey::Named(named));
    }
    if key.unicode_len() == 1 {
        return Some(VirtualKey::Character(key.to_owned()));
    }
    None
}

/// The physical key that a key name implies.
pub open spec fn physical_key_of(key: Seq<char>) -> Option<PhysicalKey> {
    match key_code_of_name(normalized(key)) {
        Some(code) => Some(PhysicalKey::Code(code)),
        None => if key.len() == 1 {
            match key_code_of_char(key[0]) {
                Some(code) => Some(PhysicalKey::Code(code)),
                None => None,
            }
        } else {
            None
        },
    }
}

/// The physical key that a key name implies: a key code name, or the key
/// that types a one-character name.
pub fn derive_physical_key(key: &str) -> (r: Option<PhysicalKey>)
    ensures
        r == physical_key_of(key@),
{
    if let Some(code) = parse_key_code(key) {
        return Some(PhysicalKey::Code(code));
    }
    if key.unicode_len() == 1 {
        let ch = key.get_char(0);
        return match char_to_key_code(ch) {
            Some(code) => Some(PhysicalKey::Code(code)),
            None => None,
        };
    }
    None
}

/// The text that pressing `key` types, as keyboard input infers it.
pub open spec fn receive_chars_of(key: Seq<char>) -> Option<Seq<char>> {
    if key.len() == 1 {
        Some(key)
    } else if normalized(key) == "space"@ || normalized(key) == "spacebar"@ {
        Some(" "@)
    } else if normalized(key) == "tab"@ {
        Some("\t"@)
    } else {
        None
    }
}

/// The text that pressing `key` types: the key itself if it is one
/// character, a space for Space, a tab for Tab, nothing otherwise.
pub fn infer_receive_chars_from_key(key: &str) -> (r: Option<String>)
    ensures
        match receive_chars_of(key@) {
            Some(t) => r is Some && r->0@ == t,
            None => r is None,
        },
{
    if key.unicode_len() == 1 {
        return Some(key.to_owned());
    }
    let n = normalize_chars(&chars_of(key));
    if chars_eq_str(&n, "space") || chars_eq_str(&n, "spacebar") {
        return Some(" ".to_owned());
    }
    if chars_eq_str(&n, "tab") {
        return Some("\t".to_owned());
    }
    None
}

/// The logical key names closest to `input`, best first, at most `limit`.
pub fn closest_key_names<'a>(input: &str, candidates: &[&'a str], limit: usize) -> (r: Vec<&'a str>)
    requires
        input@.len() < usize::MAX,
        forall|k: int| 0 <= k < candidates@.len() ==> (#[trigger] candidates@[k])@.len() < usize::MAX,
    ensures
        names_view(r@) == closest_names(input@, names_view(candidates@), limit as nat),
{
    closest_names_of(input, candidates, limit)
}

/// The message that rejects an unsupported logical key name.
pub open spec fn key_error_message(key: Seq<char>) -> Seq<char> {
    "Unsupported keyboard_input key '"@ + key
        + "'. Use W3C KeyboardEvent.key names (e.g. Enter, ArrowLeft) or single-character keys (e.g. 'a', '1'). Closest matches: "@
        + joined(closest_names(key, logical_named_key_names(), 5), ", "@) + ". Supported named keys: "@
        + joined(logical_named_key_names(), ", "@) + "."@
}

/// The message that rejects an unsupported physical key name.
pub open spec fn physical_key_error_message(key: Seq<char>) -> Seq<char> {
    "Unsupported keyboard_input physical_key '"@ + key
        + "'. Use W3C KeyboardEvent.code names (e.g. KeyA, Digit1, Enter, ArrowLeft). Closest matches: "@
        + joined(closest_names(key, physical_code_names(), 5), ", "@) + ". Supported physical_key values: "@
        + joined(physical_code_names(), ", "@) + "."@
}

/// Error message for an unsupported logical key name, with the closest
/// supported names.
pub fn keyboard_key_error(key: &str) -> (r: String)
    requires
        key@.len() < usize::MAX,
    ensures
        r@ == key_error_message(key@),
{
    let names = supported_logical_named_keys();
    let closest = closest_key_names(key, names.as_slice(), 5);
    let mut out = String::new();
    out.append("Unsupported keyboard_input key '");
    out.append(key);
    out.append("'. Use W3C KeyboardEvent.key names (e.g. Enter, ArrowLeft) or single-character keys (e.g. 'a', '1'). Closest matches: ");
    let c = join_names(&closest, ", ");
    out.append(c.as_str());
    out.append(". Supported named keys: ");
    let all = join_names(&names, ", ");
    out.append(all.as_str());
    out.append(".");
    out
}

/// Error message for an unsupported physical key name, with the closest
/// supported names.
pub fn keyboard_physical_key_error(physical_key: &str) -> (r: String)
    requires
        physical_key@.len() < usize::MAX,
    ensures
        r@ == physical_key_error_message(physical_key@),
{
    let names = supported_physical_codes();
    let closest = closest_key_names(physical_key, names.as_slice(), 5);
    let mut out = String::new();
    out.append("Unsupported keyboard_input physical_key '");
    out.append(physical_key);
    out.append("'. Use W3C KeyboardEvent.code names (e.g. KeyA, Digit1, Enter, ArrowLeft). Closest matches: ");
    let c = join_names(&closest, ", ");
    out.append(c.as_str());
    out.append(". Supported physical_key values: ");
    let all = join_names(&names, ", ");
    out.append(all.as_str());
    out.append(".");
    out
}

} // verus!
