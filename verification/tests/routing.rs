use ribir_core::dispatcher::{event_route, Dispatcher, Phase};
use ribir_core::events::{new_custom_event, CommonEvent, DispatchInfo, ElementState, MouseButtons, RibirDeviceId};
use ribir_core::key_mapping::{KeyCode, KeyLocation, PhysicalKey, VirtualKey};
use ribir_core::focus::{FocusManager, FocusType};
use ribir_core::widget_tree::{WidgetAttrs, WidgetId, WidgetTree};
use ribir_core::window::DelayEvent;

fn plain() -> WidgetAttrs {
  WidgetAttrs { tab_index: None, auto_focus: false, focusable: false, scope: None, sized_by_parent: false }
}

fn add(tree: &mut WidgetTree, parent: WidgetId, attrs: WidgetAttrs) -> WidgetId {
  let id = tree.alloc_node(attrs);
  tree.append(parent, id);
  id
}

#[test]
fn chars_capture() {
  let mut tree = WidgetTree::new(plain());
  let root = tree.root();
  let outer = add(&mut tree, root, plain());
  let inner = add(
    &mut tree,
    outer,
    WidgetAttrs { tab_index: None, auto_focus: true, focusable: true, scope: None, sized_by_parent: false },
  );
  let mut mgr = FocusManager::new();
  mgr.add_focus_node(&tree, inner, true, FocusType::Node);
  let mut events = vec![];
  mgr.on_widget_tree_update(&tree, &mut events);

  let d = Dispatcher::new();
  let mut text = String::new();
  for c in "123".chars() {
    let Some(DelayEvent::Chars { id, chars }) = d.dispatch_receive_chars(mgr.focusing(), c.to_string())
    else {
      panic!("the focused widget receives the chars");
    };
    for (w, phase) in event_route(&tree, id) {
      if w == outer && phase == Phase::Capture {
        // The value received first is multiplied by 2
        text.push_str(&(chars.parse::<i32>().unwrap() * 2).to_string());
      }
      if w == inner && phase == Phase::Bubble {
        text.push_str(&chars);
      }
    }
  }
  assert_eq!(text, "214263");
}

#[test]
fn keyboard_smoke() {
  let mut tree = WidgetTree::new(plain());
  let root = tree.root();
  let outer = add(&mut tree, root, plain());
  let inner = add(
    &mut tree,
    outer,
    WidgetAttrs { tab_index: None, auto_focus: true, focusable: true, scope: None, sized_by_parent: false },
  );
  let mut mgr = FocusManager::new();
  mgr.add_focus_node(&tree, inner, true, FocusType::Node);
  let mut events = vec![];
  mgr.on_widget_tree_update(&tree, &mut events);

  let d = Dispatcher::new();
  let mut keys: Vec<String> = vec![];
  let presses = [(KeyCode::Digit0, "0"), (KeyCode::Digit1, "1")];
  for (code, text) in presses {
    for state in [ElementState::Pressed, ElementState::Released] {
      let Some(DelayEvent::KeyBoard { id, key, state, .. }) = d.dispatch_keyboard_input(
        mgr.focusing(),
        PhysicalKey::Code(code),
        VirtualKey::Character(text.to_string()),
        false,
        KeyLocation::Standard,
        state,
      ) else {
        panic!("the focused widget receives the key");
      };
      let dir = if state == ElementState::Pressed { "down" } else { "up" };
      for (w, phase) in event_route(&tree, id) {
        if w == outer && phase == Phase::Capture {
          keys.push(format!("key {dir} capture {:?}", key));
        }
        if w == inner && phase == Phase::Bubble {
          keys.push(format!("key {dir} {:?}", key));
        }
      }
    }
  }
  assert_eq!(
    keys,
    [
      "key down capture Character(\"0\")",
      "key down Character(\"0\")",
      "key up capture Character(\"0\")",
      "key up Character(\"0\")",
      "key down capture Character(\"1\")",
      "key down Character(\"1\")",
      "key up capture Character(\"1\")",
      "key up Character(\"1\")",
    ]
  );
}

#[derive(PartialEq, Eq, Clone, Copy, Debug)]
struct MyCustomData(i32);

#[test]
fn custom_event() {
  let mut tree = WidgetTree::new(plain());
  let root = tree.root();
  let parent = add(&mut tree, root, plain());
  let child = add(&mut tree, parent, plain());

  let mut self_data = None;
  let mut parent_data = None;
  let mut e = new_custom_event(CommonEvent::new(child, DispatchInfo::new()), MyCustomData(1));
  for (w, phase) in event_route(&tree, child) {
    if phase != Phase::Bubble || !e.common.is_propagation() {
      continue;
    }
    e.common.id = w;
    if w == child {
      self_data = Some(*e.data());
    }
    if w == parent {
      parent_data = Some(*e.data());
    }
  }
  assert_eq!(self_data, Some(MyCustomData(1)));
  assert_eq!(parent_data, Some(MyCustomData(1)));
  assert_eq!(e.common.target(), child);
}

#[test]
fn capture_click() {
  let mut tree = WidgetTree::new(plain());
  let root = tree.root();
  let outer = add(&mut tree, root, plain());
  let inner = add(&mut tree, outer, plain());
  let mut mgr = FocusManager::new();
  let mut d = Dispatcher::new();
  let mut events = vec![];
  let dev = RibirDeviceId::Dummy;

  d.cursor_move_to(Some(inner), &tree, &mut events);
  d.dispatch_press_mouse(dev, MouseButtons::primary(), Some(inner), &tree, &mut mgr, &mut events);
  d.dispatch_release_mouse(dev, MouseButtons::primary(), Some(inner), &tree, &mut events);

  let mut click_path = vec![];
  for e in events {
    if let DelayEvent::Tap(target) = e {
      for (w, phase) in event_route(&tree, target) {
        match (w == outer, w == inner, phase) {
          (true, _, Phase::Capture) => click_path.push(1),
          (_, true, Phase::Capture) => click_path.push(2),
          (_, true, Phase::Bubble) => click_path.push(3),
          (true, _, Phase::Bubble) => click_path.push(4),
          _ => {}
        }
      }
    }
  }
  assert_eq!(click_path, [1, 2, 3, 4]);
}

#[test]
fn dispatcher_cancel_bubble() {
  let mut tree = WidgetTree::new(plain());
  let root = tree.root();
  let outer = add(&mut tree, root, plain());
  let inner = add(&mut tree, outer, plain());
  let mut mgr = FocusManager::new();
  let mut d = Dispatcher::new();
  let mut events = vec![];
  d.dispatch_press_mouse(RibirDeviceId::Dummy, MouseButtons::primary(), Some(inner), &tree, &mut mgr, &mut events);

  let mut record = vec![];
  for e in events {
    if let DelayEvent::PointerDown(target) = e {
      let mut common = CommonEvent::new(target, d.info);
      for (w, phase) in event_route(&tree, target) {
        if phase != Phase::Bubble || !common.is_propagation() {
          continue;
        }
        common.id = w;
        if w == inner {
          record.push(common.current_target());
          common.stop_propagation();
        } else if w == outer {
          record.push(common.current_target());
        }
      }
    }
  }
  assert_eq!(record.len(), 1);
  assert_eq!(record[0], inner);
}

#[test]
fn events_move_along_the_tree() {
  let mut tree = WidgetTree::new(plain());
  let root = tree.root();
  let outer = add(&mut tree, root, plain());
  let inner = add(&mut tree, outer, plain());
  let mut e = CommonEvent::new(inner, DispatchInfo::new());
  assert!(e.bubble_to_parent(&tree, inner));
  assert_eq!(e.current_target(), outer);
  assert!(e.bubble_to_parent(&tree, outer));
  assert_eq!(e.current_target(), root);
  assert!(!e.bubble_to_parent(&tree, root));
  assert_eq!(e.current_target(), root);
  e.capture_to_child(inner);
  assert_eq!(e.current_target(), inner);
  assert_eq!(e.target(), inner);
}

/// The pointer-down handlers that run, bubbling from the pressed widget:
/// `stoppers` stop the bubbling after their own handler ran.
fn pointer_down_handlers(tree: &WidgetTree, d: &Dispatcher, events: Vec<DelayEvent>, handlers: &[WidgetId], stoppers: &[WidgetId]) -> Vec<WidgetId> {
  let mut record = vec![];
  for e in events {
    if let DelayEvent::PointerDown(target) = e {
      let mut common = CommonEvent::new(target, d.info);
      for (w, phase) in event_route(tree, target) {
        if phase != Phase::Bubble || !common.is_propagation() {
          continue;
        }
        common.id = w;
        if handlers.contains(&w) {
          record.push(common.current_target());
          if stoppers.contains(&w) {
            common.stop_propagation();
          }
        }
      }
    }
  }
  record
}

#[test]
fn pointer_cancel_bubble() {
  let mut tree = WidgetTree::new(plain());
  let root = tree.root();
  let sized_box = add(&mut tree, root, plain());
  let text = add(&mut tree, sized_box, plain());
  let mut mgr = FocusManager::new();
  let mut d = Dispatcher::new();
  let mut events = vec![];
  d.dispatch_press_mouse(RibirDeviceId::Dummy, MouseButtons::primary(), Some(text), &tree, &mut mgr, &mut events);
  // Both listen to pointer down; the text stops the bubbling.
  let record = pointer_down_handlers(&tree, &d, events, &[sized_box, text], &[text]);
  assert_eq!(record.len(), 1);
}

#[test]
fn dispatch_cancel_bubble() {
  let mut tree = WidgetTree::new(plain());
  let root = tree.root();
  let listener = add(&mut tree, root, plain());
  let text = add(&mut tree, listener, plain());
  let mut mgr = FocusManager::new();
  let mut d = Dispatcher::new();
  let mut events = vec![];
  d.dispatch_press_mouse(RibirDeviceId::Dummy, MouseButtons::primary(), Some(text), &tree, &mut mgr, &mut events);
  // The text only stops pointer moves; the outer listener takes the down.
  let mut moves = 0;
  for e in &events {
    if let DelayEvent::PointerMove(_) = e {
      moves += 1;
    }
  }
  let record = pointer_down_handlers(&tree, &d, events, &[listener], &[]);
  assert_eq!(record.len() + moves, 1);
}

