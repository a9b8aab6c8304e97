use ribir_core::events::{ElementState, RibirDeviceId};
use ribir_core::inject::{
  build_keyboard_input_events, build_raw_keyboard_input_events, click_events, closest_matches, device_id,
  element_state, enum_error_message, key_location, modifiers_state, mouse_button, normalize_token,
  parse_element_state, parse_key_location, parse_mouse_button, resolve_chars_payload, InjectDeviceId,
  injected_to_ui_events, InjectElementState, InjectKeyLocation, InjectMouseButton, InjectedInput,
};
use ribir_core::key_mapping::{
  char_to_key_code, closest_key_names, derive_physical_key, infer_receive_chars_from_key, keyboard_key_error,
  keyboard_physical_key_error, normalize_key_name, parse_key_code, parse_named_key, parse_virtual_key,
  supported_logical_named_keys, supported_physical_codes, KeyCode, KeyLocation, NamedKey, PhysicalKey, VirtualKey,
};
use ribir_core::events::{ModifiersState, MouseButtons};
use ribir_core::recording::{inject_button_of, recorded_input, RecordedInput};
use ribir_core::scheduler::RedrawDemand;
use ribir_core::window::UiEvent;

const LOGICAL: &str = "Enter, Tab, Space, Escape, Backspace, Delete, ArrowUp, ArrowDown, ArrowLeft, \
                       ArrowRight, Home, End, PageUp, PageDown";

#[test]
fn key_names_are_normalized() {
  assert_eq!(normalize_key_name("  Arrow-Up "), "arrowup");
  assert_eq!(normalize_key_name("Page_Down"), "pagedown");
  assert_eq!(normalize_token(" Pri mary!"), "primary");
  assert_eq!(normalize_key_name(""), "");
}

#[test]
fn key_codes_parse_from_names() {
  assert_eq!(parse_key_code("Enter"), Some(KeyCode::Enter));
  assert_eq!(parse_key_code("esc"), Some(KeyCode::Escape));
  assert_eq!(parse_key_code("Key-A"), Some(KeyCode::KeyA));
  assert_eq!(parse_key_code("digit7"), Some(KeyCode::Digit7));
  assert_eq!(parse_key_code("spacebar"), None);
  assert_eq!(parse_named_key("spacebar"), Some(NamedKey::Space));
  assert_eq!(parse_named_key("Arrow Left"), Some(NamedKey::ArrowLeft));
  assert_eq!(parse_named_key("KeyA"), None);
}

#[test]
fn characters_map_to_key_codes() {
  assert_eq!(char_to_key_code('q'), Some(KeyCode::KeyQ));
  assert_eq!(char_to_key_code('Q'), Some(KeyCode::KeyQ));
  assert_eq!(char_to_key_code('0'), Some(KeyCode::Digit0));
  assert_eq!(char_to_key_code('!'), None);
}

#[test]
fn virtual_and_physical_keys_from_key_text() {
  assert_eq!(parse_virtual_key("Enter"), Some(VirtualKey::Named(NamedKey::Enter)));
  assert_eq!(parse_virtual_key("é"), Some(VirtualKey::Character("é".to_string())));
  assert_eq!(parse_virtual_key("hello"), None);
  assert_eq!(derive_physical_key("tab"), Some(PhysicalKey::Code(KeyCode::Tab)));
  assert_eq!(derive_physical_key("b"), Some(PhysicalKey::Code(KeyCode::KeyB)));
  assert_eq!(derive_physical_key("é"), None);
  assert_eq!(derive_physical_key("hello"), None);
}

#[test]
fn typed_text_is_inferred_from_key() {
  assert_eq!(infer_receive_chars_from_key("x"), Some("x".to_string()));
  assert_eq!(infer_receive_chars_from_key("Space"), Some(" ".to_string()));
  assert_eq!(infer_receive_chars_from_key("spacebar"), Some(" ".to_string()));
  assert_eq!(infer_receive_chars_from_key("Tab"), Some("\t".to_string()));
  assert_eq!(infer_receive_chars_from_key("Enter"), None);
}

#[test]
fn supported_key_lists() {
  assert_eq!(supported_logical_named_keys().join(", "), LOGICAL);
  let codes = supported_physical_codes();
  assert_eq!(codes.len(), 50);
  assert_eq!(codes[14], "KeyA");
  assert_eq!(codes[49], "Digit9");
}

#[test]
fn closest_names_rank_by_distance_then_prefix() {
  let names = supported_logical_named_keys();
  assert_eq!(closest_key_names("arow up", &names, 5), ["ArrowUp", "PageUp", "ArrowDown", "ArrowLeft", "Home"]);
  assert_eq!(closest_key_names("Entr", &names, 5), ["Enter", "End", "Tab", "Delete", "Home"]);
  assert_eq!(closest_key_names("Entr", &names, 0), Vec::<&str>::new());
  let states = ["pressed", "released"];
  assert_eq!(closest_matches("rel", &states, 3), ["released", "pressed"]);
}

#[test]
fn unsupported_key_messages() {
  let names = supported_logical_named_keys();
  let closest = closest_key_names("Entr", &names, 5).join(", ");
  assert_eq!(
    keyboard_key_error("Entr"),
    format!(
      "Unsupported keyboard_input key 'Entr'. Use W3C KeyboardEvent.key names (e.g. Enter, ArrowLeft) or \
       single-character keys (e.g. 'a', '1'). Closest matches: {}. Supported named keys: {}.",
      closest, LOGICAL
    )
  );
  let codes = supported_physical_codes();
  let msg = keyboard_physical_key_error("Kee");
  assert!(msg.starts_with(
    "Unsupported keyboard_input physical_key 'Kee'. Use W3C KeyboardEvent.code names (e.g. KeyA, Digit1, \
     Enter, ArrowLeft). Closest matches: "
  ));
  assert!(msg.ends_with(&format!(". Supported physical_key values: {}.", codes.join(", "))));
}

#[test]
fn injected_enums_parse_or_explain() {
  assert_eq!(parse_mouse_button("Secondary"), Ok(InjectMouseButton::Secondary));
  assert_eq!(parse_mouse_button(" fifth "), Ok(InjectMouseButton::Fifth));
  assert_eq!(
    parse_mouse_button("Left"),
    Err(
      "Invalid button 'Left'. Closest matches: primary, fifth, fourth. Supported values: primary, secondary, \
       auxiliary, fourth, fifth."
        .to_string()
    )
  );
  assert_eq!(
    parse_mouse_button("middle"),
    Err(
      "Invalid button 'middle'. Closest matches: auxiliary, fifth, primary. Supported values: primary, \
       secondary, auxiliary, fourth, fifth."
        .to_string()
    )
  );
  assert_eq!(parse_element_state("RELEASED"), Ok(InjectElementState::Released));
  assert_eq!(
    parse_element_state("press"),
    Err("Invalid state 'press'. Closest matches: pressed, released. Supported values: pressed, released.".to_string())
  );
  assert_eq!(parse_key_location("Numpad"), Ok(InjectKeyLocation::Numpad));
  assert_eq!(
    parse_key_location("nump"),
    Err(
      "Invalid location 'nump'. Closest matches: numpad, left, right. Supported values: standard, left, right, \
       numpad."
        .to_string()
    )
  );
  assert_eq!(
    enum_error_message("state", "x", &["pressed", "released"]),
    "Invalid state 'x'. Closest matches: pressed, released. Supported values: pressed, released."
  );
}

#[test]
fn injected_values_convert() {
  assert_eq!(mouse_button(InjectMouseButton::Auxiliary).bits(), 4);
  assert_eq!(key_location(InjectKeyLocation::Right), KeyLocation::Right);
  assert_eq!(element_state(InjectElementState::Pressed), ElementState::Pressed);
  assert_eq!(device_id(InjectDeviceId::Custom(9)), RibirDeviceId::Custom(9));
  assert_eq!(device_id(InjectDeviceId::Dummy), RibirDeviceId::Dummy);
  assert_eq!(InjectMouseButton::default(), InjectMouseButton::Primary);
  assert_eq!(modifiers_state(true, false, true, false).bits, 0x104);
  assert_eq!(modifiers_state(false, true, false, true).bits, 0x820);
}

#[test]
fn chars_payload_falls_back_to_key() {
  assert_eq!(resolve_chars_payload(Some("abc".to_string()), "x"), Some("abc".to_string()));
  assert_eq!(resolve_chars_payload(Some(String::new()), "x"), Some("x".to_string()));
  assert_eq!(resolve_chars_payload(None, "Enter"), None);
  assert_eq!(resolve_chars_payload(None, "space"), Some(" ".to_string()));
}

#[test]
fn keyboard_input_is_press_text_release() {
  let events = build_keyboard_input_events(7, "a".to_string(), None).unwrap();
  assert_eq!(events.len(), 3);
  assert!(matches!(
    &events[0],
    UiEvent::KeyBoard { wnd_id: 7, key: VirtualKey::Character(c), state: ElementState::Pressed,
      physical_key: PhysicalKey::Code(KeyCode::KeyA), is_repeat: false, location: KeyLocation::Standard }
      if c == "a"
  ));
  assert!(matches!(&events[1], UiEvent::ReceiveChars { wnd_id: 7, chars } if chars == "a"));
  assert!(matches!(&events[2], UiEvent::KeyBoard { state: ElementState::Released, .. }));

  let events = build_keyboard_input_events(7, "Enter".to_string(), None).unwrap();
  assert_eq!(events.len(), 2);

  assert_eq!(build_keyboard_input_events(7, "Entr".to_string(), None).unwrap_err(), keyboard_key_error("Entr"));
  assert_eq!(
    build_keyboard_input_events(7, "é".to_string(), None).unwrap_err(),
    "Cannot derive physical_key from key 'é'. Use `raw_keyboard_input` with explicit `physical_key` (e.g. \
     KeyA, Digit1, Enter)."
  );
}

#[test]
fn raw_keyboard_input_uses_given_physical_key() {
  let events = build_raw_keyboard_input_events(
    1,
    "é".to_string(),
    Some("KeyE".to_string()),
    InjectElementState::Pressed,
    true,
    InjectKeyLocation::Left,
    None,
  )
  .unwrap();
  assert_eq!(events.len(), 2);
  assert!(matches!(
    &events[0],
    UiEvent::KeyBoard { physical_key: PhysicalKey::Code(KeyCode::KeyE), is_repeat: true,
      location: KeyLocation::Left, state: ElementState::Pressed, .. }
  ));
  assert!(matches!(&events[1], UiEvent::ReceiveChars { chars, .. } if chars == "é"));

  let released = build_raw_keyboard_input_events(
    1,
    "a".to_string(),
    None,
    InjectElementState::Released,
    false,
    InjectKeyLocation::Standard,
    Some("a".to_string()),
  )
  .unwrap();
  assert_eq!(released.len(), 1);

  let err = build_raw_keyboard_input_events(
    1,
    "a".to_string(),
    Some("Kee".to_string()),
    InjectElementState::Pressed,
    false,
    InjectKeyLocation::Standard,
    None,
  )
  .unwrap_err();
  assert_eq!(err, keyboard_physical_key_error("Kee"));

  let err = build_raw_keyboard_input_events(
    1,
    "é".to_string(),
    None,
    InjectElementState::Pressed,
    false,
    InjectKeyLocation::Standard,
    None,
  )
  .unwrap_err();
  assert_eq!(
    err,
    "Cannot derive physical_key from key 'é'. Provide `physical_key` with W3C code names (e.g. KeyA, Digit1, \
     Enter)."
  );
}

#[test]
fn clicks_are_press_release_pairs() {
  let events = click_events(3, InjectMouseButton::Secondary, 2);
  assert_eq!(events.len(), 4);
  for (i, e) in events.iter().enumerate() {
    let expected = if i % 2 == 0 { ElementState::Pressed } else { ElementState::Released };
    assert!(matches!(e, UiEvent::MouseInput { wnd_id: 3, state, button, .. }
      if *state == expected && button.bits() == 2));
  }
  assert!(click_events(3, InjectMouseButton::Primary, 0).is_empty());
}

#[test]
fn recordings_keep_replayable_input() {
  assert_eq!(inject_button_of(MouseButtons::fourth()), InjectMouseButton::Fourth);
  assert_eq!(inject_button_of(MouseButtons::primary().union(MouseButtons::secondary())), InjectMouseButton::Primary);
  let press = UiEvent::MouseInput {
    wnd_id: 1,
    device_id: RibirDeviceId::Dummy,
    button: MouseButtons::secondary(),
    state: ElementState::Released,
  };
  assert!(matches!(
    recorded_input(&press),
    Some(RecordedInput::MouseInput { button: InjectMouseButton::Secondary, state: InjectElementState::Released })
  ));
  let key = UiEvent::KeyBoard {
    wnd_id: 1,
    key: VirtualKey::Named(NamedKey::Enter),
    state: ElementState::Pressed,
    physical_key: PhysicalKey::Code(KeyCode::Enter),
    is_repeat: true,
    location: KeyLocation::Numpad,
  };
  assert!(matches!(
    recorded_input(&key),
    Some(RecordedInput::RawKeyboardInput { key: VirtualKey::Named(NamedKey::Enter), state: InjectElementState::Pressed })
  ));
  let chars = UiEvent::ReceiveChars { wnd_id: 1, chars: "hi".to_string() };
  assert!(matches!(recorded_input(&chars), Some(RecordedInput::Chars { chars }) if chars == "hi"));
  assert!(matches!(recorded_input(&UiEvent::CursorLeft { wnd_id: 1 }), Some(RecordedInput::CursorLeft)));
  assert!(recorded_input(&UiEvent::ModifiersChanged { wnd_id: 1, state: ModifiersState::empty() }).is_none());
  assert!(recorded_input(&UiEvent::RedrawRequest { wnd_id: 1, demand: RedrawDemand::Force }).is_none());
}

#[test]
fn injected_input_becomes_window_events() {
  let ev = |e| injected_to_ui_events(9, e).unwrap();
  assert!(matches!(ev(InjectedInput::CursorLeft)[..], [UiEvent::CursorLeft { wnd_id: 9 }]));
  assert!(matches!(
    &ev(InjectedInput::MouseInput { button: InjectMouseButton::Fifth, state: InjectElementState::Pressed })[..],
    [UiEvent::MouseInput { wnd_id: 9, device_id: RibirDeviceId::Dummy, button, state: ElementState::Pressed }]
      if button.bits() == 16
  ));
  assert_eq!(ev(InjectedInput::KeyboardInput { key: "a".to_string(), chars: None }).len(), 3);
  assert!(injected_to_ui_events(9, InjectedInput::KeyboardInput { key: "nope".to_string(), chars: None }).is_err());
  let raw = ev(InjectedInput::RawKeyboardInput {
    key: "Tab".to_string(),
    physical_key: None,
    state: InjectElementState::Released,
    is_repeat: false,
    location: InjectKeyLocation::Standard,
    chars: None,
  });
  assert_eq!(raw.len(), 1);
  assert_eq!(ev(InjectedInput::Click { button: InjectMouseButton::Primary }).len(), 2);
  let double = ev(InjectedInput::DoubleClick { button: InjectMouseButton::Primary });
  assert_eq!(double.len(), 4);
  assert!(matches!(double[2], UiEvent::MouseInput { state: ElementState::Pressed, .. }));
  assert!(matches!(&ev(InjectedInput::Chars { chars: "z".to_string() })[..], [UiEvent::ReceiveChars { chars, .. }] if chars == "z"));
  assert!(matches!(
    &ev(InjectedInput::ModifiersChanged { shift: true, ctrl: true, alt: false, logo: false })[..],
    [UiEvent::ModifiersChanged { state, .. }] if state.bits == 0x24
  ));
  assert!(matches!(
    ev(InjectedInput::RedrawRequest { force: true })[..],
    [UiEvent::RedrawRequest { demand: RedrawDemand::Force, .. }]
  ));
}
