use ribir_core::dispatcher::{event_route, Dispatcher, GrabPointer, Phase};
use ribir_core::events::{new_custom_event, CommonEvent, DispatchInfo, MouseButtons, RibirDeviceId};
use ribir_core::focus::{FocusManager, FocusType};
use ribir_core::widget_tree::{WidgetAttrs, WidgetId, WidgetTree};
use ribir_core::window::DelayEvent;

fn plain() -> WidgetAttrs {
  WidgetAttrs { tab_index: None, auto_focus: false, focusable: false, scope: None, sized_by_parent: false }
}

fn add(tree: &mut WidgetTree, parent: WidgetId, attrs: WidgetAttrs) -> WidgetId {
  let id = tree.alloc_node(attrs);
  tree.append(parent, id);
  id
}

/// The buttons each pointer event of `events` reports when it is handled.
fn record(events: &mut Vec<DelayEvent>, d: &Dispatcher, out: &mut Vec<u8>) {
  for e in events.drain(..) {
    match e {
      DelayEvent::PointerDown(_)
      | DelayEvent::PointerMove(_)
      | DelayEvent::PointerUp(_)
      | DelayEvent::Tap(_) => out.push(d.info.mouse_buttons().bits()),
      _ => {}
    }
  }
}

struct Window {
  tree: WidgetTree,
  mgr: FocusManager,
  d: Dispatcher,
  events: Vec<DelayEvent>,
}

impl Window {
  fn new() -> (Window, WidgetId) {
    let mut tree = WidgetTree::new(plain());
    let root = tree.root();
    let b = add(&mut tree, root, plain());
    (Window { tree, mgr: FocusManager::new(), d: Dispatcher::new(), events: vec![] }, b)
  }
  fn press(&mut self, dev: RibirDeviceId, b: MouseButtons, hit: Option<WidgetId>) {
    self.d.dispatch_press_mouse(dev, b, hit, &self.tree, &mut self.mgr, &mut self.events);
  }
  fn release(&mut self, dev: RibirDeviceId, b: MouseButtons, hit: Option<WidgetId>) {
    self.d.dispatch_release_mouse(dev, b, hit, &self.tree, &mut self.events);
  }
  fn move_to(&mut self, hit: Option<WidgetId>) { self.d.cursor_move_to(hit, &self.tree, &mut self.events); }
}

#[test]
fn dispatcher_mouse_buttons() {
  let (mut wnd, b) = Window::new();
  let mut records = vec![];
  let dev = RibirDeviceId::Dummy;
  wnd.press(dev, MouseButtons::primary(), Some(b));
  record(&mut wnd.events, &wnd.d, &mut records);
  wnd.press(dev, MouseButtons::secondary(), Some(b));
  record(&mut wnd.events, &wnd.d, &mut records);
  wnd.move_to(Some(b));
  record(&mut wnd.events, &wnd.d, &mut records);
  wnd.release(dev, MouseButtons::primary(), Some(b));
  record(&mut wnd.events, &wnd.d, &mut records);
  wnd.release(dev, MouseButtons::secondary(), Some(b));
  record(&mut wnd.events, &wnd.d, &mut records);

  let p = MouseButtons::primary().bits();
  let s = MouseButtons::secondary().bits();
  assert_eq!(records.len(), 6);
  assert_eq!(records[0], p);
  assert_eq!(records[1], p | s);
  assert_eq!(records[2], p | s);
  assert_eq!(records[3], s);
  assert_eq!(records[4], s);
  assert_eq!(records[5], 0);
}

#[test]
fn dispatcher_different_device_mouse() {
  let (mut wnd, b) = Window::new();
  let mut record_ = vec![];
  let dev1 = RibirDeviceId::Dummy;
  let dev2 = RibirDeviceId::Custom(7);

  wnd.press(dev1, MouseButtons::primary(), Some(b));
  record(&mut wnd.events, &wnd.d, &mut record_);
  assert_eq!(record_.len(), 1);

  wnd.press(dev2, MouseButtons::secondary(), Some(b));
  record(&mut wnd.events, &wnd.d, &mut record_);
  assert_eq!(record_.len(), 2);
  // different device clear before buttons
  assert_eq!(record_[1], MouseButtons::secondary().bits());

  wnd.release(dev2, MouseButtons::secondary(), Some(b));
  record(&mut wnd.events, &wnd.d, &mut record_);
  // a tap event is processed
  assert_eq!(record_.len(), 4);
  assert_eq!(record_[3], MouseButtons::empty().bits());

  wnd.move_to(Some(b));
  record(&mut wnd.events, &wnd.d, &mut record_);
  // but cursor move processed.
  assert_eq!(record_.len(), 5);
  assert_eq!(record_[4], MouseButtons::empty().bits());

  wnd.release(dev1, MouseButtons::primary(), Some(b));
  record(&mut wnd.events, &wnd.d, &mut record_);
  assert_eq!(record_.len(), 6);
}

/// Taps reach the tapped widget and bubble up to the root.
fn taps(tree: &WidgetTree, events: &mut Vec<DelayEvent>, handlers: &[WidgetId]) -> usize {
  let mut n = 0;
  for e in events.drain(..) {
    if let DelayEvent::Tap(p) = e {
      for w in tree.ancestors(p) {
        if handlers.contains(&w) {
          n += 1;
        }
      }
    }
  }
  n
}

#[test]
fn dispatcher_click() {
  let mut tree = WidgetTree::new(plain());
  let root = tree.root();
  let multi = add(&mut tree, root, plain());
  let box1 = add(&mut tree, multi, plain());
  let box2 = add(&mut tree, multi, plain());
  let mut mgr = FocusManager::new();
  let mut d = Dispatcher::new();
  let mut events = vec![];
  let handlers = [multi, box1];
  let dev = RibirDeviceId::Dummy;

  d.cursor_move_to(Some(box1), &tree, &mut events);
  d.dispatch_press_mouse(dev, MouseButtons::primary(), Some(box1), &tree, &mut mgr, &mut events);
  d.dispatch_release_mouse(dev, MouseButtons::primary(), Some(box1), &tree, &mut events);
  assert_eq!(taps(&tree, &mut events, &handlers), 2);

  d.cursor_move_to(Some(box1), &tree, &mut events);
  d.dispatch_press_mouse(dev, MouseButtons::primary(), Some(box1), &tree, &mut mgr, &mut events);
  d.cursor_move_to(Some(box2), &tree, &mut events);
  d.dispatch_release_mouse(dev, MouseButtons::primary(), Some(box2), &tree, &mut events);
  assert_eq!(taps(&tree, &mut events, &handlers), 1);
}

#[test]
fn dispatcher_enter_leave() {
  let mut tree = WidgetTree::new(plain());
  let root = tree.root();
  let parent = add(&mut tree, root, plain());
  let child = add(&mut tree, parent, plain());
  let mut d = Dispatcher::new();
  let mut events = vec![];
  let mut enter: Vec<i32> = vec![];
  let mut leave: Vec<i32> = vec![];
  let name = |w: WidgetId| if w == child { Some(1) } else if w == parent { Some(2) } else { None };
  let mut deliver = |tree: &WidgetTree, events: &mut Vec<DelayEvent>, enter: &mut Vec<i32>, leave: &mut Vec<i32>| {
    for e in events.drain(..) {
      match e {
        // enter goes down from the common ancestor to the new widget
        DelayEvent::PointerEnter { bottom, up } => {
          let mut path = vec![];
          for w in tree.ancestors(bottom) {
            if Some(w) == up {
              break;
            }
            path.push(w);
          }
          for w in path.into_iter().rev() {
            enter.extend(name(w));
          }
        }
        // leave goes up from the old widget to the common ancestor
        DelayEvent::PointerLeave { bottom, up } => {
          for w in tree.ancestors(bottom) {
            if Some(w) == up {
              break;
            }
            leave.extend(name(w));
          }
        }
        _ => {}
      }
    }
  };

  d.cursor_move_to(Some(child), &tree, &mut events);
  deliver(&tree, &mut events, &mut enter, &mut leave);
  assert_eq!(&enter, &[2, 1]);

  // leave to parent
  d.cursor_move_to(Some(parent), &tree, &mut events);
  deliver(&tree, &mut events, &mut enter, &mut leave);
  assert_eq!(&leave, &[1]);

  // move in same widget, check if duplicate event fired.
  d.cursor_move_to(Some(parent), &tree, &mut events);
  deliver(&tree, &mut events, &mut enter, &mut leave);
  assert_eq!(&enter, &[2, 1]);
  assert_eq!(&leave, &[1]);

  // leave all
  d.cursor_move_to(None, &tree, &mut events);
  deliver(&tree, &mut events, &mut enter, &mut leave);
  assert_eq!(&leave, &[1, 2]);

  // leave event trigger by window left.
  d.cursor_move_to(Some(child), &tree, &mut events);
  d.on_cursor_left(None, &tree, &mut events);
  deliver(&tree, &mut events, &mut enter, &mut leave);
  assert_eq!(&leave, &[1, 2, 1, 2]);
}

#[test]
fn dispatcher_focus_change_by_event() {
  let mut tree = WidgetTree::new(plain());
  let root = tree.root();
  let multi = add(&mut tree, root, plain());
  let first = add(
    &mut tree,
    multi,
    WidgetAttrs { tab_index: Some(0), auto_focus: false, focusable: true, scope: None, sized_by_parent: false },
  );
  let _second = add(&mut tree, multi, plain());
  let mut mgr = FocusManager::new();
  mgr.add_focus_node(&tree, first, false, FocusType::Node);
  let mut d = Dispatcher::new();
  let mut events = vec![];
  let dev = RibirDeviceId::Dummy;

  // point down on a focus widget
  d.dispatch_press_mouse(dev, MouseButtons::primary(), Some(first), &tree, &mut mgr, &mut events);
  assert!(mgr.focusing().is_some());

  d.dispatch_release_mouse(dev, MouseButtons::primary(), Some(first), &tree, &mut events);
  d.cursor_move_to(Some(multi), &tree, &mut events);
  d.dispatch_press_mouse(dev, MouseButtons::primary(), Some(multi), &tree, &mut mgr, &mut events);
  assert!(mgr.focusing().is_none());
}

#[test]
fn pointer_grab_takes_all_pointer_events() {
  let (mut wnd, b) = Window::new();
  let other = add(&mut wnd.tree, b, plain());
  let grab = GrabPointer::grab(b, &mut wnd.d).unwrap();
  assert!(GrabPointer::grab(other, &mut wnd.d).is_none());
  wnd.move_to(Some(other));
  wnd.press(RibirDeviceId::Dummy, MouseButtons::primary(), Some(other));
  wnd.release(RibirDeviceId::Dummy, MouseButtons::primary(), Some(other));
  assert!(matches!(wnd.events[0], DelayEvent::GrabPointerMove(w) if w == b));
  assert!(matches!(wnd.events.last(), Some(DelayEvent::GrabPointerUp(w)) if *w == b));
  grab.release(&mut wnd.d);
  assert!(GrabPointer::grab(other, &mut wnd.d).is_some());
}

#[test]
fn wheel_smoke() {
  let mut tree = WidgetTree::new(plain());
  let root = tree.root();
  let outer = add(&mut tree, root, plain());
  let inner = add(&mut tree, outer, plain());

  let mut bubble_receive = (0., 0.);
  let mut capture_receive = (0., 0.);
  let mut event_order = vec![];
  // The wheel event fired at `inner` carries its deltas along its route.
  let wheel = new_custom_event(CommonEvent::new(inner, DispatchInfo::new()), (1.0f32, 1.0f32));
  for (w, phase) in event_route(&tree, wheel.common.target()) {
    if w == outer && phase == Phase::Capture {
      capture_receive = *wheel.data();
      event_order.push("capture");
    }
    if w == inner && phase == Phase::Bubble {
      bubble_receive = *wheel.data();
      event_order.push("bubble");
    }
  }

  assert_eq!(bubble_receive, (1., 1.));
  assert_eq!(capture_receive, (1., 1.));
  assert_eq!(event_order, ["capture", "bubble"]);
}

/// The enter and leave handlers of `named` widgets that run, in order.
fn enter_leave(tree: &WidgetTree, events: &mut Vec<DelayEvent>, named: &[(WidgetId, i32)], enter: &mut Vec<i32>, leave: &mut Vec<i32>) {
  let name = |w: WidgetId| named.iter().find(|(x, _)| *x == w).map(|(_, n)| *n);
  for e in events.drain(..) {
    match e {
      DelayEvent::PointerEnter { bottom, up } => {
        let mut path = vec![];
        for w in tree.ancestors(bottom) {
          if Some(w) == up {
            break;
          }
          path.push(w);
        }
        for w in path.into_iter().rev() {
          enter.extend(name(w));
        }
      }
      DelayEvent::PointerLeave { bottom, up } => {
        for w in tree.ancestors(bottom) {
          if Some(w) == up {
            break;
          }
          leave.extend(name(w));
        }
      }
      _ => {}
    }
  }
}

#[test]
fn pointer_enter_leave() {
  let mut tree = WidgetTree::new(plain());
  let root = tree.root();
  let parent = add(&mut tree, root, plain());
  let child = add(&mut tree, parent, plain());
  let named = [(parent, 2), (child, 1)];
  let mut d = Dispatcher::new();
  let mut events = vec![];
  let (mut enter, mut leave) = (vec![], vec![]);

  // The cursor moves onto the child, then out of the window's widgets.
  d.cursor_move_to(Some(child), &tree, &mut events);
  enter_leave(&tree, &mut events, &named, &mut enter, &mut leave);
  assert_eq!(&enter, &[2, 1]);
  d.cursor_move_to(None, &tree, &mut events);
  enter_leave(&tree, &mut events, &named, &mut enter, &mut leave);
  assert_eq!(&leave, &[1, 2]);

  // leave event trigger by window left.
  leave.clear();
  d.cursor_move_to(Some(child), &tree, &mut events);
  d.on_cursor_left(None, &tree, &mut events);
  enter_leave(&tree, &mut events, &named, &mut enter, &mut leave);
  assert_eq!(&leave, &[1, 2]);
}

#[test]
fn pointer_click() {
  let mut tree = WidgetTree::new(plain());
  let root = tree.root();
  let row = add(&mut tree, root, plain());
  let box1 = add(&mut tree, row, plain());
  let _box2 = add(&mut tree, row, plain());
  let mut mgr = FocusManager::new();
  let mut d = Dispatcher::new();
  let mut events = vec![];
  let handlers = [row, box1];
  let dev = RibirDeviceId::Dummy;

  // Press and release on the first box: it and the row are tapped.
  d.cursor_move_to(Some(box1), &tree, &mut events);
  d.dispatch_press_mouse(dev, MouseButtons::primary(), Some(box1), &tree, &mut mgr, &mut events);
  d.dispatch_release_mouse(dev, MouseButtons::primary(), Some(box1), &tree, &mut events);
  assert_eq!(taps(&tree, &mut events, &handlers), 2);

  // Press on the box, release below it on the row: only the row is tapped.
  d.cursor_move_to(Some(box1), &tree, &mut events);
  d.dispatch_press_mouse(dev, MouseButtons::primary(), Some(box1), &tree, &mut mgr, &mut events);
  d.cursor_move_to(Some(row), &tree, &mut events);
  d.dispatch_release_mouse(dev, MouseButtons::primary(), Some(row), &tree, &mut events);
  assert_eq!(taps(&tree, &mut events, &handlers), 1);
}

#[test]
fn pointer_focus_change_by_event() {
  let mut tree = WidgetTree::new(plain());
  let root = tree.root();
  let row = add(&mut tree, root, plain());
  let first = add(
    &mut tree,
    row,
    WidgetAttrs { tab_index: Some(0), auto_focus: false, focusable: true, scope: None, sized_by_parent: false },
  );
  let second = add(&mut tree, row, plain());
  let mut mgr = FocusManager::new();
  mgr.add_focus_node(&tree, first, false, FocusType::Node);
  let mut d = Dispatcher::new();
  let mut events = vec![];
  let dev = RibirDeviceId::Dummy;

  d.cursor_move_to(Some(first), &tree, &mut events);
  d.dispatch_press_mouse(dev, MouseButtons::primary(), Some(first), &tree, &mut mgr, &mut events);
  // point down on a focus widget
  assert!(mgr.focusing().is_some());

  d.dispatch_release_mouse(dev, MouseButtons::primary(), Some(first), &tree, &mut events);
  d.cursor_move_to(Some(second), &tree, &mut events);
  d.dispatch_press_mouse(dev, MouseButtons::primary(), Some(second), &tree, &mut mgr, &mut events);
  assert!(mgr.focusing().is_none());
}

