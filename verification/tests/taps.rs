use ribir_core::events::{MouseButtons, PointerType};
use ribir_core::taps::XTimesTapListener;

/// Mouse events every `interval` ms, pressing and releasing in turn; each
/// release completes a tap. Returns how often the listener fired.
fn tap_every(times: u8, interval: u64, events: u64) -> usize {
  let mut listener = XTimesTapListener::new(times);
  let mut count = 0;
  for i in 0..events {
    let now = interval * (i + 1);
    if i % 2 == 1 && listener.on_tap(now, PointerType::Mouse, MouseButtons::primary()) {
      count += 1;
    }
  }
  count
}

#[test]
fn double_tap() {
  assert_eq!(tap_every(2, 10, 8), 2);
  assert_eq!(tap_every(2, 251, 8), 0);
}

#[test]
fn tripe_tap() { assert_eq!(tap_every(3, 10, 12), 2); }

#[test]
fn quick_taps_fire_once_and_slow_taps_never() {
  let mut l = XTimesTapListener::new(3);
  let fired: Vec<bool> = [100, 150, 349].iter().map(|&t| l.on_tap(t, PointerType::Touch, MouseButtons::primary())).collect();
  assert_eq!(fired, [false, false, true]);

  let mut l = XTimesTapListener::new(2);
  let fired: Vec<bool> = [0, 250, 500, 750].iter().map(|&t| l.on_tap(t, PointerType::Mouse, MouseButtons::primary())).collect();
  assert_eq!(fired, [false; 4]);
}

#[test]
fn a_tap_with_another_pointer_starts_a_new_run() {
  let mut l = XTimesTapListener::new(2);
  assert!(!l.on_tap(0, PointerType::Mouse, MouseButtons::primary()));
  assert!(!l.on_tap(10, PointerType::Pen, MouseButtons::primary()));
  assert!(l.on_tap(20, PointerType::Pen, MouseButtons::primary()));
  // The run keeps its first tap's time: past the window it starts over.
  assert!(!l.on_tap(300, PointerType::Pen, MouseButtons::primary()));
  assert!(l.on_tap(310, PointerType::Pen, MouseButtons::primary()));
}
