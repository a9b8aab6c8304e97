use ribir_core::dispatcher::Dispatcher;
use ribir_core::events::ElementState;
use ribir_core::key_mapping::{KeyCode, KeyLocation, NamedKey, PhysicalKey, VirtualKey};
use ribir_core::focus::{FocusManager, FocusType};
use ribir_core::widget_tree::{WidgetAttrs, WidgetId, WidgetTree};
use ribir_core::window::DelayEvent;

fn plain() -> WidgetAttrs {
  WidgetAttrs { tab_index: None, auto_focus: false, focusable: false, scope: None, sized_by_parent: false }
}

fn auto(auto_focus: bool) -> WidgetAttrs {
  WidgetAttrs { tab_index: None, auto_focus, focusable: true, scope: None, sized_by_parent: false }
}

fn add(tree: &mut WidgetTree, parent: WidgetId, attrs: WidgetAttrs) -> WidgetId {
  let id = tree.alloc_node(attrs);
  tree.append(parent, id);
  id
}

fn mount(tree: &WidgetTree, mgr: &mut FocusManager, id: WidgetId) {
  for w in tree.descendants(id) {
    let a = tree.attrs(w);
    if a.focusable {
      mgr.add_focus_node(tree, w, a.auto_focus, FocusType::Node);
    }
  }
}

fn unmount(tree: &mut WidgetTree, mgr: &mut FocusManager, id: WidgetId) {
  for w in tree.descendants(id) {
    if tree.attrs(w).focusable {
      mgr.remove_focus_node(w, FocusType::Node);
    }
  }
  tree.dispose_subtree(id, &Vec::new());
}

/// Dispatches received characters and hands each resulting event to the
/// handler of its live target.
fn receive_chars(
  tree: &WidgetTree, mgr: &FocusManager, chars: &str, handler: &mut dyn FnMut(WidgetId, &str),
) {
  let dispatcher = Dispatcher::new();
  if let Some(DelayEvent::Chars { id, chars }) =
    dispatcher.dispatch_receive_chars(mgr.focusing(), chars.to_string())
  {
    if !tree.is_dropped(id) {
      handler(id, &chars);
    }
  }
}

#[test]
fn remove_focused_widget() {
  let mut tree = WidgetTree::new(plain());
  let mut mgr = FocusManager::new();
  let root = tree.root();
  let host = add(&mut tree, root, plain());
  let mut input = String::new();
  let mut events = vec![];

  let receiver = add(&mut tree, host, auto(true));
  mount(&tree, &mut mgr, receiver);
  mgr.on_widget_tree_update(&tree, &mut events);
  receive_chars(&tree, &mgr, "hello", &mut |id, c| {
    if id == receiver {
      input.push_str(c)
    }
  });
  assert_eq!(input, "hello");

  unmount(&mut tree, &mut mgr, receiver);
  mgr.on_widget_tree_update(&tree, &mut events);
  receive_chars(&tree, &mgr, "has no receiver", &mut |id, c| {
    if id == receiver {
      input.push_str(c)
    }
  });
  assert_eq!(input, "hello");

  let receiver = add(&mut tree, host, auto(true));
  mount(&tree, &mut mgr, receiver);
  mgr.on_widget_tree_update(&tree, &mut events);
  receive_chars(&tree, &mgr, " ribir", &mut |id, c| {
    if id == receiver {
      input.push_str(c)
    }
  });
  assert_eq!(input, "hello ribir");
}

#[test]
fn multi_focused_update() {
  let mut tree = WidgetTree::new(plain());
  let mut mgr = FocusManager::new();
  let root = tree.root();
  let multi = add(&mut tree, root, plain());
  let mut input = String::new();
  let mut events = vec![];

  // Each of the four boxes is rebuilt when the active index changes; a box
  // asks for focus when it is the active one, and its chars handler keeps
  // the chars only when the active index is 2.
  let mut boxes: Vec<WidgetId> = vec![];
  let mut rebuild = |tree: &mut WidgetTree, mgr: &mut FocusManager, boxes: &mut Vec<WidgetId>, idx: usize| {
    for b in boxes.drain(..) {
      unmount(tree, mgr, b);
    }
    for i in 0..4 {
      let b = add(tree, multi, auto(i == idx));
      mount(tree, mgr, b);
      boxes.push(b);
    }
  };

  for (idx, chars, expected) in [
    (0usize, "hello", ""),
    (1, "ribir", ""),
    (2, "nice to see you", "nice to see you"),
    (3, "Bye-Bye", "nice to see you"),
  ] {
    rebuild(&mut tree, &mut mgr, &mut boxes, idx);
    mgr.on_widget_tree_update(&tree, &mut events);
    let live = boxes.clone();
    receive_chars(&tree, &mgr, chars, &mut |id, c| {
      if live.contains(&id) && idx == 2 {
        input.push_str(c)
      }
    });
    assert_eq!(input, expected);
  }
}

#[test]
fn character_smoke() {
  let mut tree = WidgetTree::new(plain());
  let mut mgr = FocusManager::new();
  let root = tree.root();
  let receiver = add(&mut tree, root, auto(true));
  mount(&tree, &mut mgr, receiver);
  let mut events = vec![];
  mgr.on_widget_tree_update(&tree, &mut events);

  let test_text_case = "Hello 世界！";
  let mut watcher = String::new();
  for c in test_text_case.chars() {
    receive_chars(&tree, &mgr, &c.to_string(), &mut |id, s| {
      if id == receiver {
        watcher.push_str(s)
      }
    });
  }
  assert_eq!(watcher, test_text_case);
}

#[test]
fn keyboard_goes_to_focus_or_moves_focus_with_tab() {
  let dispatcher = Dispatcher::new();
  let e = dispatcher.dispatch_keyboard_input(
    None,
    PhysicalKey::Code(KeyCode::Tab),
    VirtualKey::Named(NamedKey::Tab),
    false,
    KeyLocation::Standard,
    ElementState::Pressed,
  );
  assert!(matches!(e, Some(DelayEvent::TabFocusMove)));
  let e = dispatcher.dispatch_keyboard_input(
    None,
    PhysicalKey::Code(KeyCode::Tab),
    VirtualKey::Named(NamedKey::Tab),
    false,
    KeyLocation::Standard,
    ElementState::Released,
  );
  assert!(e.is_none());
  let e = dispatcher.dispatch_keyboard_input(
    Some(WidgetId(3)),
    PhysicalKey::Code(KeyCode::KeyA),
    VirtualKey::Character("a".to_string()),
    false,
    KeyLocation::Standard,
    ElementState::Pressed,
  );
  assert!(matches!(e, Some(DelayEvent::KeyBoard { id: WidgetId(3), .. })));
}
