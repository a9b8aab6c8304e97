use ribir_core::events::{ElementState, MouseButtons, RibirDeviceId};
use ribir_core::inject::{InjectElementState, InjectMouseButton};
use ribir_core::macro_record::{finish_macro_recording, RecordedEvent, ReplayStep};
use ribir_core::macro_session::{EventMacroRecordingSession, MacroRecorder, RecordingMode};
use ribir_core::recording::RecordedInput;
use ribir_core::window::UiEvent;

#[test]
fn complete_timed_macro_start_only_resolves_once() {
  let mut session = EventMacroRecordingSession {
    id: "macro_test".to_string(),
    window_id: None,
    started_at_ts_unix_ms: 1_000,
    events: Vec::new(),
    mode: RecordingMode::Timed { reply_pending: true },
  };
  let mut resolved = vec![];
  for _ in 0..2 {
    if session.complete_timed_macro_start() {
      resolved.push(finish_macro_recording("macro_test".to_string(), 1_000, Vec::<RecordedEvent<RecordedInput>>::new(), 3_000));
    }
  }
  assert_eq!(resolved.len(), 1);
  let result = &resolved[0];
  assert_eq!(result.recording_id, "macro_test");
  assert_eq!(result.duration_ms, 2_000);
  let mut async_session = EventMacroRecordingSession { mode: RecordingMode::Async, ..session };
  assert!(!async_session.complete_timed_macro_start());
  assert!(result.events.is_empty());
}

fn click(state: ElementState) -> UiEvent {
  UiEvent::MouseInput { wnd_id: 1, device_id: RibirDeviceId::Dummy, button: MouseButtons::primary(), state }
}

#[test]
fn recorder_runs_one_recording_at_a_time() {
  let mut rec = MacroRecorder::new();
  assert!(!rec.is_macro_recording());
  // Nothing is kept while no recording runs.
  rec.record_ui_event(&click(ElementState::Pressed), 5);
  assert_eq!(rec.start(Some(1), 1_000, false), Ok("macro_1000_0".to_string()));
  assert!(rec.is_macro_recording());
  assert_eq!(
    rec.start(None, 1_001, false),
    Err("Event macro recording already in progress. Stop it first.".to_string())
  );
  rec.record_ui_event(&click(ElementState::Pressed), 1_100);
  rec.record_ui_event(&UiEvent::ReceiveChars { wnd_id: 1, chars: "hello".to_string() }, 1_300);
  rec.record_ui_event(&UiEvent::CursorLeft { wnd_id: 1 }, 1_300);

  assert_eq!(
    rec.stop(Some("macro_9_9".to_string()), 2_000).err(),
    Some("Recording ID mismatch: requested macro_9_9, active macro_1000_0".to_string())
  );
  assert!(rec.is_macro_recording());
  let (result, answer_start) = rec.stop(Some("macro_1000_0".to_string()), 2_000).unwrap();
  assert!(!answer_start);
  assert!(!rec.is_macro_recording());
  assert_eq!(result.recording_id, "macro_1000_0");
  assert_eq!(result.duration_ms, 1_000);
  assert_eq!(result.events.len(), 5);
  assert!(matches!(result.events[0], ReplayStep::Delay { ms: 100 }));
  assert!(matches!(
    result.events[1],
    ReplayStep::Event(RecordedInput::MouseInput { button: InjectMouseButton::Primary, state: InjectElementState::Pressed })
  ));
  assert!(matches!(result.events[2], ReplayStep::Delay { ms: 200 }));
  assert!(matches!(&result.events[3], ReplayStep::Event(RecordedInput::Chars { chars }) if chars == "hello"));
  assert!(matches!(result.events[4], ReplayStep::Event(RecordedInput::CursorLeft)));
  assert_eq!(rec.stop(None, 2_000).err(), Some("No active event macro recording session.".to_string()));

  // A timed recording answers its start request when it stops.
  assert_eq!(rec.start(None, 7, true), Ok("macro_7_1".to_string()));
  let (_, answer_start) = rec.stop(None, 9).unwrap();
  assert!(answer_start);
}
