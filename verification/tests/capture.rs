use ribir_core::bridge::CaptureError;
use ribir_core::capture::{
  capture_options, finish_one_shot, one_shot_plan, recording_frame_file, status_capture_info, capture_stop_bundle,
  CaptureOptions, CaptureSlot,
};
use ribir_core::log_ring::{LogRing, LogRingItem};

fn kinds(v: &[&str]) -> Vec<String> { v.iter().map(|s| s.to_string()).collect() }

fn ring() -> LogRing {
  let mut ring = LogRing::new(100, 1_000_000);
  for (seq, ts) in [(1u64, 100u64), (2, 900), (3, 1_500), (4, 2_600), (5, 4_000)] {
    ring.push(LogRingItem { seq, ts_unix_ms: ts, line: format!("line{seq}") });
  }
  ring
}

fn start(slot: &mut CaptureSlot, now: u64, options: CaptureOptions) -> String {
  let id = slot.reserve_id(now).unwrap();
  slot.open(id.clone(), format!("/tmp/captures/{id}"), now, options, Some("info".to_string()));
  id
}

#[test]
fn capture_kinds_pick_logs_and_images() {
  assert_eq!(
    capture_options(&kinds(&["logs"]), 5, 6),
    CaptureOptions { with_logs: true, with_images: false, pre_ms: 5, post_ms: 6 }
  );
  assert_eq!(
    capture_options(&kinds(&["images", "other", "logs"]), 0, 0),
    CaptureOptions { with_logs: true, with_images: true, pre_ms: 0, post_ms: 0 }
  );
  assert_eq!(
    capture_options(&kinds(&[]), 1, 2),
    CaptureOptions { with_logs: false, with_images: false, pre_ms: 1, post_ms: 2 }
  );
  let (options, settle) = one_shot_plan(&kinds(&["images"]), None, Some(7), None);
  assert_eq!(options, CaptureOptions { with_logs: false, with_images: true, pre_ms: 2_000, post_ms: 7 });
  assert_eq!(settle, 150);
  assert_eq!(one_shot_plan(&kinds(&[]), Some(1), None, Some(9)).1, 9);
}

#[test]
fn one_capture_at_a_time() {
  let mut slot = CaptureSlot::new();
  assert!(!slot.is_active());
  let options = CaptureOptions { with_logs: true, with_images: true, pre_ms: 500, post_ms: 1_000 };
  let id = start(&mut slot, 1_000, options);
  assert_eq!(id, "cap_1000_0");
  assert!(slot.is_active());
  assert_eq!(slot.reserve_id(1_200), Err(CaptureError::Conflict));
  let info = status_capture_info(&slot).unwrap();
  assert_eq!(info.capture_id, "cap_1000_0");
  assert_eq!(info.capture_dir, "/tmp/captures/cap_1000_0");
  assert_eq!(info.filter_at_start.as_deref(), Some("info"));

  assert_eq!(recording_frame_file(true, &slot, 1_100, 3), None);
  assert_eq!(slot.record_frame(3, 1_100), Some("frames/frame_1100_3.webp".to_string()));
  assert_eq!(slot.frame_count(), 1);

  let ring = ring();
  assert_eq!(capture_stop_bundle(&mut slot, &ring, &Some("cap_9_9".to_string()), 2_000, 4).err(), Some(CaptureError::NotFound));
  assert!(slot.is_active());
  let bundle = capture_stop_bundle(&mut slot, &ring, &Some("cap_1000_0".to_string()), 2_000, 4).unwrap();
  assert!(!slot.is_active());
  assert_eq!(bundle.capture_id, "cap_1000_0");
  assert_eq!((bundle.start_ts_unix_ms, bundle.end_ts_unix_ms), (1_000, 2_000));
  let logs = bundle.logs.unwrap();
  assert_eq!((logs.since_ts_unix_ms, logs.until_ts_unix_ms, logs.dropped_total), (500, 3_000, 4));
  assert_eq!(logs.lines, vec!["line2", "line3", "line4"]);
  let frames = bundle.frames.unwrap();
  assert_eq!(frames.len(), 1);
  assert_eq!((frames[0].seq, frames[0].ts_unix_ms, frames[0].path.as_str()), (3, 1_100, "frames/frame_1100_3.webp"));
  assert_eq!(capture_stop_bundle(&mut slot, &ring, &None, 2_000, 4).err(), Some(CaptureError::NotFound));

  // The next capture gets the next number.
  assert_eq!(slot.reserve_id(5), Ok("cap_5_1".to_string()));
}

#[test]
fn bundles_keep_only_what_was_asked_for() {
  let mut slot = CaptureSlot::new();
  let options = CaptureOptions { with_logs: false, with_images: false, pre_ms: u64::MAX, post_ms: u64::MAX };
  start(&mut slot, 10, options);
  assert_eq!(slot.record_frame(1, 11), None);
  assert_eq!(slot.frame_count(), 0);
  let bundle = capture_stop_bundle(&mut slot, &ring(), &None, 20, 0).unwrap();
  assert!(bundle.logs.is_none());
  assert!(bundle.frames.is_none());
  assert_eq!(recording_frame_file(true, &slot, 7, 8), Some("frame_7_8.webp".to_string()));
  assert_eq!(recording_frame_file(false, &slot, 7, 8), None);

  // The log window saturates at both ends.
  let options = CaptureOptions { with_logs: true, with_images: false, pre_ms: u64::MAX, post_ms: u64::MAX };
  start(&mut slot, 10, options);
  let logs = capture_stop_bundle(&mut slot, &ring(), &None, 20, 0).unwrap().logs.unwrap();
  assert_eq!((logs.since_ts_unix_ms, logs.until_ts_unix_ms), (0, u64::MAX));
  assert_eq!(logs.lines.len(), 5);
}

#[test]
fn one_shot_without_a_new_frame_times_out() {
  let mut slot = CaptureSlot::new();
  let images = CaptureOptions { with_logs: false, with_images: true, pre_ms: 0, post_ms: 0 };
  start(&mut slot, 1, images);
  assert_eq!(finish_one_shot(&mut slot, &ring(), false, 2, 0).err(), Some(CaptureError::Timeout));
  assert!(!slot.is_active());
  start(&mut slot, 3, images);
  slot.record_frame(1, 4);
  let bundle = finish_one_shot(&mut slot, &ring(), true, 5, 0).unwrap();
  assert_eq!(bundle.frames.unwrap().len(), 1);
  let logs_only = CaptureOptions { with_logs: true, with_images: false, pre_ms: 0, post_ms: 0 };
  start(&mut slot, 3, logs_only);
  assert!(finish_one_shot(&mut slot, &ring(), false, 5, 0).is_ok());
  assert_eq!(finish_one_shot(&mut slot, &ring(), true, 5, 0).err(), Some(CaptureError::NotFound));
}
