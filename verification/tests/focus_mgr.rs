use ribir_core::dispatcher::Dispatcher;
use ribir_core::events::{FocusReason, MouseButtons, RibirDeviceId};
use ribir_core::focus::{FocusManager, FocusType};
use ribir_core::widget_tree::{FocusScope, WidgetAttrs, WidgetId, WidgetTree};
use ribir_core::window::DelayEvent;

fn plain() -> WidgetAttrs {
  WidgetAttrs { tab_index: None, auto_focus: false, focusable: false, scope: None, sized_by_parent: false }
}

fn focusable(tab_index: Option<i16>, auto_focus: bool) -> WidgetAttrs {
  WidgetAttrs { tab_index, auto_focus, focusable: true, scope: None, sized_by_parent: false }
}

fn scope() -> WidgetAttrs {
  WidgetAttrs {
    tab_index: None,
    auto_focus: false,
    focusable: false,
    scope: Some(FocusScope { skip_host: false, skip_descendants: false }),
    sized_by_parent: false,
  }
}

fn add(tree: &mut WidgetTree, parent: WidgetId, attrs: WidgetAttrs) -> WidgetId {
  let id = tree.alloc_node(attrs);
  tree.append(parent, id);
  id
}

/// Registers the focus nodes and scopes of `id`'s subtree, as mounting does.
fn mount(tree: &WidgetTree, mgr: &mut FocusManager, id: WidgetId) {
  for w in tree.descendants(id) {
    let a = tree.attrs(w);
    if a.focusable {
      mgr.add_focus_node(tree, w, a.auto_focus, FocusType::Node);
    }
    if a.scope.is_some() {
      mgr.add_focus_node(tree, w, false, FocusType::Scope);
    }
  }
}

/// Withdraws the registrations of `id`'s subtree and disposes of it.
fn unmount(tree: &mut WidgetTree, mgr: &mut FocusManager, id: WidgetId) {
  for w in tree.descendants(id) {
    let a = tree.attrs(w);
    if a.focusable {
      mgr.remove_focus_node(w, FocusType::Node);
    }
    if a.scope.is_some() {
      mgr.remove_focus_node(w, FocusType::Scope);
    }
  }
  tree.dispose_subtree(id, &Vec::new());
}

#[test]
fn focus_mgr_two_auto_focus() {
  let mut tree = WidgetTree::new(plain());
  let mut mgr = FocusManager::new();
  let root = tree.root();
  let content = add(&mut tree, root, plain());
  let first = add(&mut tree, content, focusable(None, true));
  let _second = add(&mut tree, content, focusable(None, true));
  mount(&tree, &mut mgr, content);
  let mut events = vec![];
  mgr.on_widget_tree_update(&tree, &mut events);
  assert_eq!(mgr.focusing(), Some(first));
}

#[test]
fn focus_mgr_on_auto_focus() {
  let mut tree = WidgetTree::new(plain());
  let mut mgr = FocusManager::new();
  let root = tree.root();
  let content = add(&mut tree, root, plain());
  let _first = add(&mut tree, content, plain());
  let second = add(&mut tree, content, focusable(None, true));
  mount(&tree, &mut mgr, content);
  let mut events = vec![];
  mgr.focus(&tree, second, FocusReason::Other, &mut events);
  assert_eq!(mgr.focusing(), Some(second));
}

#[test]
fn focus_mgr_tab_index() {
  let mut tree = WidgetTree::new(plain());
  let mut mgr = FocusManager::new();
  let root = tree.root();
  let content = add(&mut tree, root, plain());
  let _negative = add(&mut tree, content, focusable(Some(-1), false));
  let id0 = add(&mut tree, content, focusable(Some(0), false));
  let id1 = add(&mut tree, content, focusable(Some(1), true));
  let id2 = add(&mut tree, content, focusable(Some(2), false));
  let id4 = add(&mut tree, content, focusable(Some(4), false));
  let id3 = add(&mut tree, id4, focusable(Some(3), false));
  let id0_0 = add(&mut tree, content, focusable(Some(0), false));
  mount(&tree, &mut mgr, content);

  let mut events = vec![];
  mgr.on_widget_tree_update(&tree, &mut events);

  // next focus sequential
  mgr.focus_next_widget(&tree, FocusReason::Other, &mut events);
  assert_eq!(mgr.focusing(), Some(id2));
  mgr.focus_next_widget(&tree, FocusReason::Other, &mut events);
  assert_eq!(mgr.focusing(), Some(id3));
  mgr.focus_next_widget(&tree, FocusReason::Other, &mut events);
  assert_eq!(mgr.focusing(), Some(id4));
  mgr.focus_next_widget(&tree, FocusReason::Other, &mut events);
  assert_eq!(mgr.focusing(), Some(id0));
  mgr.focus_next_widget(&tree, FocusReason::Other, &mut events);
  assert_eq!(mgr.focusing(), Some(id0_0));
  mgr.focus_next_widget(&tree, FocusReason::Other, &mut events);
  assert_eq!(mgr.focusing(), Some(id1));

  // previous focus sequential
  mgr.focus_prev_widget(&tree, FocusReason::Other, &mut events);
  assert_eq!(mgr.focusing(), Some(id0_0));
  mgr.focus_prev_widget(&tree, FocusReason::Other, &mut events);
  assert_eq!(mgr.focusing(), Some(id0));
  mgr.focus_prev_widget(&tree, FocusReason::Other, &mut events);
  assert_eq!(mgr.focusing(), Some(id4));
  mgr.focus_prev_widget(&tree, FocusReason::Other, &mut events);
  assert_eq!(mgr.focusing(), Some(id3));
  mgr.focus_prev_widget(&tree, FocusReason::Other, &mut events);
  assert_eq!(mgr.focusing(), Some(id2));
  mgr.focus_prev_widget(&tree, FocusReason::Other, &mut events);
  assert_eq!(mgr.focusing(), Some(id1));
}

/// The handlers a focus event reaches: the target, or, for focus-in and
/// focus-out, the widgets from the bottom up to the common ancestor.
fn deliver(tree: &WidgetTree, e: &DelayEvent, names: &dyn Fn(WidgetId) -> &'static str, log: &mut Vec<String>) {
  let bubble = |bottom: WidgetId, up: Option<WidgetId>, kind: &str, log: &mut Vec<String>| {
    for w in tree.ancestors(bottom) {
      if Some(w) == up {
        break;
      }
      log.push(format!("{} {}", kind, names(w)));
    }
  };
  match e {
    DelayEvent::Focus { id, .. } => log.push(format!("focus {}", names(*id))),
    DelayEvent::Blur { id, .. } => log.push(format!("blur {}", names(*id))),
    DelayEvent::FocusIn { bottom, up, .. } => bubble(*bottom, *up, "focusin", log),
    DelayEvent::FocusOut { bottom, up, .. } => bubble(*bottom, *up, "focusout", log),
    _ => {}
  }
}

#[test]
fn focus_mgr_focus_event() {
  let mut tree = WidgetTree::new(plain());
  let mut mgr = FocusManager::new();
  let root = tree.root();
  let parent = add(&mut tree, root, focusable(None, false));
  let child = add(&mut tree, parent, focusable(None, false));
  mount(&tree, &mut mgr, parent);
  let names = move |w: WidgetId| {
    if w == parent {
      "parent"
    } else if w == child {
      "child"
    } else {
      "root"
    }
  };
  let deliver_all = |events: &Vec<DelayEvent>| {
    let mut log = vec![];
    for e in events {
      deliver(&tree, e, &names, &mut log);
    }
    log.retain(|l| !l.ends_with("root"));
    log
  };

  let mut events = vec![];
  mgr.on_widget_tree_update(&tree, &mut events);
  mgr.focus(&tree, child, FocusReason::Other, &mut events);
  assert_eq!(deliver_all(&events), ["focus child", "focusin child", "focusin parent"]);

  let mut events = vec![];
  mgr.focus_next_widget(&tree, FocusReason::Other, &mut events);
  assert_eq!(deliver_all(&events), ["blur child", "focusout child", "focus parent"]);

  let mut events = vec![];
  mgr.blur(&tree, FocusReason::Other, &mut events);
  assert_eq!(deliver_all(&events), ["blur parent", "focusout parent"]);
}

#[test]
fn dynamic_focus() {
  let mut tree = WidgetTree::new(plain());
  let mut mgr = FocusManager::new();
  let root = tree.root();
  let multi = add(&mut tree, root, plain());
  let focus_id = mgr.focusing();
  let mut events = vec![];

  let shown = add(&mut tree, multi, plain());
  mount(&tree, &mut mgr, shown);
  mgr.on_widget_tree_update(&tree, &mut events);

  unmount(&mut tree, &mut mgr, shown);
  mgr.on_widget_tree_update(&tree, &mut events);

  let shown = add(&mut tree, multi, plain());
  mount(&tree, &mut mgr, shown);
  mgr.on_widget_tree_update(&tree, &mut events);

  assert_eq!(mgr.focusing(), focus_id);
}

#[test]
fn scope_node_request_focus() {
  let mut tree = WidgetTree::new(plain());
  let mut mgr = FocusManager::new();
  let root = tree.root();
  let multi = add(&mut tree, root, plain());
  let _first_box = add(&mut tree, multi, focusable(None, false));
  let focus_scope = add(&mut tree, multi, scope());
  let outer = add(&mut tree, focus_scope, plain());
  let inner_box = add(&mut tree, outer, focusable(None, false));
  let _last_box = add(&mut tree, multi, focusable(None, false));
  mount(&tree, &mut mgr, multi);

  let mut events = vec![];
  mgr.focus(&tree, inner_box, FocusReason::Other, &mut events);
  assert_eq!(mgr.focusing(), Some(inner_box));
}

#[test]
fn focus_reason_from_u8() {
  assert_eq!(FocusReason::from_u8(0), FocusReason::Keyboard);
  assert_eq!(FocusReason::from_u8(1), FocusReason::Pointer);
  assert_eq!(FocusReason::from_u8(2), FocusReason::AutoFocus);
  assert_eq!(FocusReason::from_u8(3), FocusReason::Other);
}

#[test]
fn focus_reason_to_u8() {
  assert_eq!(FocusReason::Keyboard as u8, 0);
  assert_eq!(FocusReason::Pointer as u8, 1);
  assert_eq!(FocusReason::AutoFocus as u8, 2);
  assert_eq!(FocusReason::Other as u8, 3);
}

#[test]
#[should_panic]
fn focus_reason_unreachable() { FocusReason::from_u8(4); }

#[test]
fn focus_reason_round_trip() {
  for code in 0u8..=3 {
    assert_eq!(FocusReason::from_u8(code).to_u8(), code);
  }
}

#[test]
fn scope_that_skips_descendants_blocks_focus() {
  let mut tree = WidgetTree::new(plain());
  let mut mgr = FocusManager::new();
  let root = tree.root();
  let host = add(
    &mut tree,
    root,
    WidgetAttrs {
      tab_index: None,
      auto_focus: false,
      focusable: false,
      scope: Some(FocusScope { skip_host: false, skip_descendants: true }),
      sized_by_parent: false,
    },
  );
  let inner = add(&mut tree, host, focusable(None, false));
  mount(&tree, &mut mgr, host);
  let mut events = vec![];
  assert_eq!(mgr.focus(&tree, inner, FocusReason::Other, &mut events), None);
  assert_eq!(mgr.focusing(), None);
  assert!(events.is_empty());
}

#[test]
fn focusing_a_scope_host_focuses_its_first_widget() {
  let mut tree = WidgetTree::new(plain());
  let mut mgr = FocusManager::new();
  let root = tree.root();
  let host = add(&mut tree, root, scope());
  let second = add(&mut tree, host, focusable(Some(2), false));
  let first = add(&mut tree, host, focusable(Some(1), false));
  mount(&tree, &mut mgr, host);
  let mut events = vec![];
  assert_eq!(mgr.focus(&tree, host, FocusReason::Keyboard, &mut events), Some(first));
  assert_ne!(first, second);
}

#[test]
fn focusing_the_focused_widget_again_does_nothing() {
  let mut tree = WidgetTree::new(plain());
  let mut mgr = FocusManager::new();
  let root = tree.root();
  let w = add(&mut tree, root, focusable(None, false));
  mount(&tree, &mut mgr, w);
  let mut events = vec![];
  assert_eq!(mgr.focus(&tree, w, FocusReason::Other, &mut events), Some(w));
  let mut again = vec![];
  assert_eq!(mgr.focus(&tree, w, FocusReason::Other, &mut again), None);
  assert!(again.is_empty());
  assert_eq!(mgr.focusing(), Some(w));
}

#[test]
fn registrations_are_counted() {
  let mut tree = WidgetTree::new(plain());
  let mut mgr = FocusManager::new();
  let root = tree.root();
  let w = add(&mut tree, root, focusable(None, false));
  mgr.add_focus_node(&tree, w, false, FocusType::Node);
  mgr.add_focus_node(&tree, w, false, FocusType::Node);
  mgr.remove_focus_node(w, FocusType::Node);
  let mut events = vec![];
  // One registration is left: the widget still takes focus.
  assert_eq!(mgr.focus(&tree, w, FocusReason::Other, &mut events), Some(w));
  mgr.blur(&tree, FocusReason::Other, &mut events);
  mgr.remove_focus_node(w, FocusType::Node);
  assert_eq!(mgr.focus(&tree, w, FocusReason::Other, &mut events), None);
}

/// The reason of the last focus or blur event among `events`.
fn last_reason(events: &[DelayEvent]) -> Option<FocusReason> {
  events.iter().rev().find_map(|e| match e {
    DelayEvent::Focus { reason, .. } | DelayEvent::Blur { reason, .. } => Some(*reason),
    _ => None,
  })
}

#[test]
fn track_focus_reason() {
  let mut tree = WidgetTree::new(plain());
  let mut mgr = FocusManager::new();
  let root = tree.root();
  let w = add(&mut tree, root, focusable(None, true));
  mount(&tree, &mut mgr, w);
  let mut events = vec![];

  mgr.on_widget_tree_update(&tree, &mut events);
  assert_eq!(last_reason(&events), Some(FocusReason::AutoFocus));

  mgr.blur(&tree, FocusReason::Other, &mut events);
  assert_eq!(last_reason(&events), Some(FocusReason::Other));

  let mut d = Dispatcher::new();
  d.dispatch_press_mouse(RibirDeviceId::Dummy, MouseButtons::primary(), Some(w), &tree, &mut mgr, &mut events);
  assert_eq!(last_reason(&events), Some(FocusReason::Pointer));
}

#[test]
fn dynamic_focus_node() {
  // One widget whose tab index is declared by three nested declarations
  // holds a single focus node.
  let mut tree = WidgetTree::new(plain());
  let mut mgr = FocusManager::new();
  let root = tree.root();
  let w = add(&mut tree, root, focusable(Some(0), false));
  for _ in 0..3 {
    mgr.add_focus_node(&tree, w, false, FocusType::Node);
  }
  assert_eq!(mgr.node_ids.len(), 1);
  let mut events = vec![];
  assert_eq!(mgr.focus_next_widget(&tree, FocusReason::Other, &mut events), Some(w));
  assert_eq!(mgr.focus_next_widget(&tree, FocusReason::Other, &mut events), None);
}
