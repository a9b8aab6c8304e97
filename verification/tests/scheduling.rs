use ribir_core::cow_rc::CowRc;
use ribir_core::macro_record::{finish_macro_recording, RecordedEvent, ReplayStep};
use ribir_core::event_loop::{on_core_msg, LoopStep};
use ribir_core::scheduler::{RedrawDemand, Scheduler, WindowController, WindowPhase};
use ribir_core::window::{CoreMsg, UiEvent};

#[test]
fn cow_rc_smoke() {
  static V: i32 = 1;

  let mut cow = CowRc::borrowed(&V);
  let c_cow = cow.clone();

  assert_eq!(cow, c_cow);
  // have same pointer address
  assert!(std::ptr::eq(&*cow, &*c_cow));

  *cow.to_mut() = 2;
  // cow should deep cloned.
  assert!(cow.is_owned());
  assert!(c_cow.is_borrowed());
  assert_eq!(&*cow, &2);
  assert_eq!(&*c_cow, &1);
}

#[test]
fn cow_rc_owned_is_shared_until_written() {
  let a = CowRc::owned(String::from("x"));
  let mut b = a.clone();
  b.to_mut().push('y');
  assert_eq!(a.get(), "x");
  assert_eq!(b.get(), "xy");
}

/// A window's controller, set by hand.
fn set_phase(s: &mut Scheduler, wnd: u64, phase: WindowPhase) {
  let c = s.controller(wnd);
  s.set_controller(wnd, WindowController { phase, ..c });
}

#[test]
fn pending_redraws_are_deduplicated_and_force_is_upgraded() {
  let mut scheduler = Scheduler::new();
  let wnd = 1;
  let mut request_draw_count = 0;
  if scheduler.request_redraw(wnd, RedrawDemand::Normal).is_some() {
    request_draw_count += 1;
  }
  if scheduler.request_redraw(wnd, RedrawDemand::Force).is_some() {
    request_draw_count += 1;
  }
  assert_eq!(request_draw_count, 1);

  let controller = scheduler.controller(wnd);
  assert_eq!(controller.phase, WindowPhase::PlatformRequested);
  assert_eq!(controller.demand, RedrawDemand::Force);
}

#[test]
fn redraw_requested_during_frame_is_rescheduled_after_frame() {
  let mut scheduler = Scheduler::new();
  let wnd = 1;
  let mut request_draw_count = 0;

  set_phase(&mut scheduler, wnd, WindowPhase::InFrame);
  scheduler.on_redraw_ready(wnd, RedrawDemand::Normal);
  assert_eq!(scheduler.controller(wnd).demand, RedrawDemand::Normal);

  set_phase(&mut scheduler, wnd, WindowPhase::Idle);
  if scheduler.ensure_platform_redraw_requested(wnd).is_some() {
    request_draw_count += 1;
  }

  assert_eq!(request_draw_count, 1);
  let controller = scheduler.controller(wnd);
  assert_eq!(controller.phase, WindowPhase::PlatformRequested);
  assert_eq!(controller.demand, RedrawDemand::Normal);
}

/// Runs the frame of the ready window: it draws when the frame demands a
/// forced draw or the window has something new to draw. Returns whether a
/// frame ran and whether the platform was asked again.
fn run_ready_frame(s: &mut Scheduler, window_needs_draw: bool) -> (bool, bool) {
  let ready = s.ready_windows();
  match ready.first() {
    Some(&wnd) => {
      let demand = s.begin_frame(wnd);
      let did_draw = demand.requires_forced_draw() || window_needs_draw;
      (true, s.finish_frame(wnd, did_draw).is_some())
    }
    None => (false, false),
  }
}

#[test]
fn drawn_frame_only_requests_one_followup_redraw() {
  let mut scheduler = Scheduler::new();
  let wnd = 1;
  let mut request_draw_count = 0;

  // The first frame of a new window draws it.
  scheduler.on_redraw_ready(wnd, RedrawDemand::Normal);
  let (ran, asked) = run_ready_frame(&mut scheduler, true);
  assert!(ran);
  request_draw_count += asked as i32;
  assert_eq!(request_draw_count, 1);

  let controller = scheduler.controller(wnd);
  assert_eq!(controller.phase, WindowPhase::PlatformRequested);
  assert_eq!(controller.demand, RedrawDemand::Normal);

  // Nothing changed since: the follow-up frame has nothing to draw.
  scheduler.on_redraw_ready(wnd, RedrawDemand::Normal);
  let (ran, asked) = run_ready_frame(&mut scheduler, false);
  assert!(ran);
  request_draw_count += asked as i32;
  assert_eq!(request_draw_count, 1);

  let controller = scheduler.controller(wnd);
  assert_eq!(controller.phase, WindowPhase::Idle);
  assert_eq!(controller.demand, RedrawDemand::Nothing);
}

#[test]
fn non_force_redraw_requested_during_frame_is_rescheduled_after_frame() {
  let mut scheduler = Scheduler::new();
  let wnd = 1;
  let mut request_draw_count = 0;

  set_phase(&mut scheduler, wnd, WindowPhase::InFrame);
  if scheduler.request_redraw(wnd, RedrawDemand::Normal).is_some() {
    request_draw_count += 1;
  }
  assert_eq!(request_draw_count, 0);
  assert_eq!(scheduler.controller(wnd).demand, RedrawDemand::Normal);

  set_phase(&mut scheduler, wnd, WindowPhase::Idle);
  if scheduler.ensure_platform_redraw_requested(wnd).is_some() {
    request_draw_count += 1;
  }
  assert_eq!(request_draw_count, 1);

  let controller = scheduler.controller(wnd);
  assert_eq!(controller.phase, WindowPhase::PlatformRequested);
  assert_eq!(controller.demand, RedrawDemand::Normal);
}

#[derive(Debug)]
enum Injected {
  CursorLeft,
  Chars { chars: String },
}

#[test]
fn finish_macro_recording_reports_wall_clock_duration() {
  let events = vec![
    RecordedEvent { event: Injected::CursorLeft, ts_unix_ms: 1_100 },
    RecordedEvent { event: Injected::Chars { chars: "hello".to_string() }, ts_unix_ms: 1_300 },
  ];

  let result = finish_macro_recording("macro_test".to_string(), 1_000, events, 2_000);

  assert_eq!(result.duration_ms, 1_000);
  // Should have 4 events: Delay(100), CursorLeft, Delay(200), Chars
  assert_eq!(result.events.len(), 4);
  // First event is Delay(100ms)
  if let ReplayStep::Delay { ms } = &result.events[0] {
    assert_eq!(*ms, 100);
  } else {
    panic!("Expected Delay event");
  }
  // Second event is CursorLeft
  assert!(matches!(&result.events[1], ReplayStep::Event(Injected::CursorLeft)));
  // Third event is Delay(200ms)
  if let ReplayStep::Delay { ms } = &result.events[2] {
    assert_eq!(*ms, 200);
  } else {
    panic!("Expected Delay event");
  }
  // Fourth event is Chars
  assert!(matches!(&result.events[3], ReplayStep::Event(Injected::Chars { .. })));
  assert_eq!(result.recording_id, "macro_test");
}

#[test]
fn data_changes_redraw_every_window() {
  let mut s = Scheduler::new();
  set_phase(&mut s, 2, WindowPhase::InFrame);
  let (changed, asked) = s.flush_global_changes(true, &vec![1, 2, 3]);
  assert!(changed);
  // The window in its frame is not asked again, but owes a frame.
  assert_eq!(asked, [(1, RedrawDemand::Normal), (3, RedrawDemand::Normal)]);
  assert_eq!(s.controller(2).demand, RedrawDemand::Normal);
  assert_eq!(s.controller(1).phase, WindowPhase::PlatformRequested);

  let mut s = Scheduler::new();
  let (changed, asked) = s.flush_global_changes(false, &vec![1, 2]);
  assert!(!changed);
  assert!(asked.is_empty());
  assert_eq!(s.controller(1).phase, WindowPhase::Idle);
}

#[test]
fn handled_input_redraws_its_window_or_all() {
  let mut s = Scheduler::new();
  assert_eq!(s.finish_window_input(4, false, &vec![4, 5]), [(4, RedrawDemand::Normal)]);
  assert_eq!(s.controller(5).phase, WindowPhase::Idle);
  let mut s = Scheduler::new();
  assert_eq!(s.finish_window_input(4, true, &vec![4, 5]), [(4, RedrawDemand::Normal), (5, RedrawDemand::Normal)]);
}

#[test]
fn loop_messages_drive_the_scheduler() {
  let mut s = Scheduler::new();
  let none: Vec<u64> = vec![];
  let step = on_core_msg(&mut s, CoreMsg::FrameReady { wnd_id: 1, demand: RedrawDemand::Force }, true, false, &none);
  assert!(matches!(step, LoopStep::Idle));
  assert_eq!(s.controller(1), WindowController { phase: WindowPhase::Ready, demand: RedrawDemand::Force });

  // A message about a window that is gone drops its controller.
  let step = on_core_msg(&mut s, CoreMsg::FrameReady { wnd_id: 1, demand: RedrawDemand::Normal }, false, false, &none);
  assert!(matches!(step, LoopStep::Idle));
  assert_eq!(s.controller(1), WindowController { phase: WindowPhase::Idle, demand: RedrawDemand::Nothing });

  let step = on_core_msg(&mut s, CoreMsg::Platform(UiEvent::CursorLeft { wnd_id: 2 }), true, false, &none);
  assert!(matches!(step, LoopStep::Input(UiEvent::CursorLeft { wnd_id: 2 })));
  let step = on_core_msg(
    &mut s,
    CoreMsg::Platform(UiEvent::RedrawRequest { wnd_id: 2, demand: RedrawDemand::Normal }),
    true,
    false,
    &none,
  );
  assert!(matches!(step, LoopStep::Idle));
  assert_eq!(s.controller(2).phase, WindowPhase::Ready);

  let step = on_core_msg(&mut s, CoreMsg::DataChanged, true, true, &vec![3]);
  assert!(matches!(step, LoopStep::Redraw(v) if v == [(3, RedrawDemand::Normal)]));
  let step = on_core_msg(&mut s, CoreMsg::DataChanged, true, false, &vec![3]);
  assert!(matches!(step, LoopStep::Redraw(v) if v.is_empty()));

  let step = on_core_msg(&mut s, CoreMsg::CloseWindow { wnd_id: 3 }, true, false, &none);
  assert!(matches!(step, LoopStep::Close(3)));
  assert_eq!(s.controller(3).phase, WindowPhase::Idle);
  let step = on_core_msg(&mut s, CoreMsg::CloseWindow { wnd_id: 3 }, false, false, &none);
  assert!(matches!(step, LoopStep::Idle));
  assert!(matches!(on_core_msg(&mut s, CoreMsg::Exit, true, false, &none), LoopStep::Exit));
}
