use ribir_core::bridge::CaptureError;
use ribir_core::inject::{inject_without_window, InjectEventsResult, InjectRun};
use ribir_core::mcp::{image_encoding_failed, one_shot_answer, recording_started, recording_stopped};
use ribir_core::window::UiEvent;

fn err_of<T: std::fmt::Debug>(r: Result<T, ribir_core::mcp::RpcError>) -> (i64, String) {
  let e = r.unwrap_err();
  (e.code, e.message)
}

#[test]
fn recording_answers() {
  let mut recording = false;
  let started = recording_started(&mut recording, Ok("/tmp/cap_1_0".to_string()));
  assert_eq!(started.unwrap(), "Recording started. Capture dir: /tmp/cap_1_0");
  assert!(recording);
  assert_eq!(
    err_of(recording_started(&mut recording, Err(CaptureError::Conflict))),
    (-32000, "Recording already active".to_string())
  );
  assert_eq!(
    err_of(recording_started(&mut recording, Err(CaptureError::Internal))),
    (-32000, "Failed to start recording: status 500 Internal Server Error".to_string())
  );
  assert!(recording);

  let stopped = recording_stopped(&mut recording, Ok(("/tmp/c".to_string(), "/tmp/c/capture.json".to_string())));
  assert_eq!(stopped.unwrap(), "Recording stopped.\nCapture: /tmp/c\nManifest: /tmp/c/capture.json");
  assert!(!recording);
  assert_eq!(
    err_of(recording_stopped(&mut recording, Err(CaptureError::NotFound))),
    (-32001, "No active recording session".to_string())
  );

  assert_eq!(
    one_shot_answer(Ok(("d".to_string(), "d/capture.json".to_string()))).unwrap(),
    "Capture saved to d\nManifest: d/capture.json"
  );
  assert_eq!(
    err_of(one_shot_answer(Err(CaptureError::Timeout))),
    (-32000, "Failed to capture one shot: status 408 Request Timeout".to_string())
  );
  let e = image_encoding_failed();
  assert_eq!((e.code, e.message.as_str()), (-32000, "Failed to encode image"));
}

#[test]
fn injection_counts_until_the_first_failure() {
  assert_eq!(inject_without_window(), Err("No active window found".to_string()));

  let mut run = InjectRun::new();
  let events = run.converted(Ok(vec![UiEvent::CursorLeft { wnd_id: 1 }, UiEvent::CursorLeft { wnd_id: 1 }]));
  assert_eq!(events.len(), 2);
  for _ in events {
    run.sent(true);
  }
  assert!(!run.is_stopped());
  assert_eq!(run.finish(), Ok(InjectEventsResult { accepted: 2 }));

  let mut run = InjectRun::new();
  run.sent(true);
  run.sent(false);
  assert!(run.is_stopped());
  assert_eq!(run.finish(), Err("Failed to send UiEvent to event loop".to_string()));

  let mut run = InjectRun::new();
  assert!(run.converted(Err("Unknown key 'Foo'".to_string())).is_empty());
  assert_eq!(run.finish(), Err("Unknown key 'Foo'".to_string()));
}
