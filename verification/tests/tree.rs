use ribir_core::build_ctx::{BuildCtx, BuildCtxHandle, GeneratorID};
use ribir_core::events::{DispatchInfo, MouseButtons, RibirDeviceId};
use ribir_core::resolve::{find_widget_id_by_parts, parse_widget_ref, resolve_widget_id, JsonWidgetId, WidgetRef};
use ribir_core::widget_tree::{WidgetAttrs, WidgetId, WidgetTree};
use ribir_core::window::DelayEvent;

fn plain() -> WidgetAttrs {
  WidgetAttrs { tab_index: None, auto_focus: false, focusable: false, scope: None, sized_by_parent: false }
}

fn add(tree: &mut WidgetTree, parent: WidgetId, attrs: WidgetAttrs) -> WidgetId {
  let id = tree.alloc_node(attrs);
  tree.append(parent, id);
  id
}

/// root ─ a ─ (a1, a2 ─ a21), b
fn sample() -> (WidgetTree, [WidgetId; 5]) {
  let mut tree = WidgetTree::new(plain());
  let root = tree.root();
  let a = add(&mut tree, root, plain());
  let a1 = add(&mut tree, a, plain());
  let a2 = add(&mut tree, a, plain());
  let a21 = add(&mut tree, a2, plain());
  let b = add(&mut tree, root, plain());
  (tree, [a, a1, a2, a21, b])
}

#[test]
fn append_moves_a_widget_from_its_former_parent() {
  let (mut tree, [a, a1, a2, a21, b]) = sample();
  // `a21` (a child of `a2`) becomes the last child of `a`.
  tree.append(a, a21);
  assert_eq!(tree.children(a), [a1, a2, a21]);
  assert!(tree.children(a2).is_empty());
  assert_eq!(tree.parent(a21), Some(a));
  let root = tree.root();
  assert_eq!(tree.children(root), [a, b]);
}

#[test]
fn insert_after_puts_a_widget_next_to_its_sibling() {
  let (mut tree, [a, a1, a2, a21, _b]) = sample();
  tree.insert_after(a1, a21);
  assert_eq!(tree.children(a), [a1, a21, a2]);
  assert!(tree.children(a2).is_empty());
  assert_eq!(tree.parent(a21), Some(a));
  let c = tree.alloc_node(plain());
  tree.insert_after(a2, c);
  assert_eq!(tree.children(a), [a1, a21, a2, c]);
}

#[test]
fn children_queries() {
  let (tree, [a, a1, a2, a21, b]) = sample();
  assert_eq!(tree.first_child(a), Some(a1));
  assert!(tree.has_child(a));
  assert!(!tree.has_child(b));
  assert_eq!(tree.first_child(b), None);
  assert_eq!(tree.single_child(a2), Some(a21));
  assert_eq!(tree.single_child(b), None);
  assert_eq!(tree.reverse_children(a), [a2, a1]);
}

#[test]
fn detach_undoes_append() {
  let (mut tree, [a, a1, a2, ..]) = sample();
  let before = tree.children(a);
  let c = tree.alloc_node(plain());
  tree.append(a, c);
  assert_eq!(tree.children(a), [a1, a2, c]);
  assert_eq!(tree.parent(c), Some(a));
  tree.detach(c);
  assert_eq!(tree.children(a), before);
  assert_eq!(tree.parent(c), None);
  // Detaching a widget with no parent changes nothing.
  tree.detach(c);
  assert_eq!(tree.children(a), before);
}

#[test]
fn walks_in_document_order() {
  let (tree, [a, a1, a2, a21, b]) = sample();
  let root = tree.root();
  assert_eq!(tree.descendants(root), [root, a, a1, a2, a21, b]);
  assert_eq!(tree.descendants(a2), [a2, a21]);
  assert_eq!(tree.ancestors(a21), [a21, a2, a, root]);
  assert_eq!(tree.lowest_common_ancestor(a21, a1), Some(a));
  assert_eq!(tree.lowest_common_ancestor(a21, b), Some(root));
  assert_eq!(tree.lowest_common_ancestor(a2, a21), Some(a2));
  let lone = {
    let mut t = tree;
    let w = t.alloc_node(plain());
    (t.lowest_common_ancestor(w, a), t.len())
  };
  assert_eq!(lone, (None, 7));
}

#[test]
fn disposal_drops_all_but_the_kept() {
  let (mut tree, [a, a1, a2, a21, b]) = sample();
  let disposed = tree.dispose_subtree(a, &vec![]);
  assert_eq!(disposed, [a, a1, a2, a21]);
  for w in [a, a1, a2, a21] {
    assert!(tree.is_dropped(w));
  }
  assert!(!tree.is_dropped(b));
  assert_eq!(tree.children(tree.root()), [b]);

  let (mut tree, [a, a1, a2, a21, _]) = sample();
  let disposed = tree.dispose_subtree(a, &vec![a2]);
  // A kept widget is told of the disposal, but what lies below it is not.
  assert_eq!(disposed, [a, a1, a2]);
  assert!(tree.is_dropped(a1));
  assert!(!tree.is_dropped(a2));
  assert!(!tree.is_dropped(a21));
  assert_eq!(tree.parent(a2), None);
  assert_eq!(tree.parent(a21), Some(a2));
}

#[test]
fn layout_runs_children_first_and_only_where_needed() {
  let (mut tree, [a, a1, a2, a21, b]) = sample();
  let root = tree.root();
  assert_eq!(tree.perform_layout(root), [a1, a21, a2, a, b, root]);
  assert!(tree.perform_layout(root).is_empty());
  tree.mark_dirty(a21);
  assert_eq!(tree.perform_layout(root), [a21, a2, a, root]);
  tree.mark_dirty(b);
  // Layout of a subtree leaves the rest dirty.
  assert!(tree.perform_layout(a).is_empty());
  assert_eq!(tree.perform_layout(root), [b, root]);
}

#[test]
fn press_then_release_gives_back_the_buttons() {
  let mut info = DispatchInfo::new();
  info.set_device_id(RibirDeviceId::Dummy);
  info.press_button(MouseButtons::primary());
  let held = info.mouse_buttons();
  info.press_button(MouseButtons::secondary());
  assert_eq!(info.mouse_buttons().bits(), 3);
  info.release_button(MouseButtons::secondary());
  assert_eq!(info.mouse_buttons(), held);
  info.release_button(MouseButtons::primary());
  assert_eq!(info.mouse_buttons().bits(), 0);
  // A press from another device forgets the buttons held before.
  info.press_button(MouseButtons::primary());
  info.set_device_id(RibirDeviceId::Custom(2));
  assert_eq!(info.mouse_buttons().bits(), 0);
}

#[test]
fn build_ctx_tracks_where_it_builds() {
  let (tree, [a, _, _, a21, _]) = sample();
  let root = tree.root();
  let mut ctx = BuildCtx::new(None, tree, 8);
  assert_eq!(ctx.window(), 8);
  assert_eq!(ctx.ctx_from(), root);
  assert_eq!(ctx.reset_ctx_from(Some(a)), None);
  assert_eq!(ctx.ctx_from(), a);
  let BuildCtxHandle { ctx_from, wnd_id } = ctx.handle();
  assert_eq!((ctx_from, wnd_id), (Some(a), 8));
  assert!(ctx.is_valid_widget(a21));
  assert!(!ctx.is_valid_widget(WidgetId(99)));
  ctx.tree.perform_layout(root);
  ctx.dirty(a21);
  assert_eq!(ctx.tree.perform_layout(root), [a21, ctx.tree.parent(a21).unwrap(), a, root]);
  assert_eq!(GeneratorID(4).next_id(), GeneratorID(5));
  assert_eq!(GeneratorID::default(), GeneratorID(0));
}

#[test]
fn widget_id_texts() {
  assert_eq!(parse_widget_ref("3:0"), WidgetRef::Parts { index1: 3, stamp: Some(0) });
  assert_eq!(parse_widget_ref("3"), WidgetRef::Parts { index1: 3, stamp: None });
  assert_eq!(parse_widget_ref("name: Text "), WidgetRef::Name("Text".to_string()));
  assert_eq!(parse_widget_ref("debug:Box"), WidgetRef::Name("Box".to_string()));
  assert_eq!(parse_widget_ref("3:x"), WidgetRef::Name("3:x".to_string()));
  assert_eq!(parse_widget_ref("name:"), WidgetRef::Nothing);
  assert_eq!(parse_widget_ref("  "), WidgetRef::Nothing);
}

#[test]
fn widgets_are_found_by_index_or_name() {
  let (mut tree, [a, _a1, a2, _a21, b]) = sample();
  let detached = tree.alloc_node(plain());
  let names: Vec<String> =
    ["Root", "Box", "Text", "Text", "Leaf", "Box", "Box"].iter().map(|s| s.to_string()).collect();
  assert_eq!(resolve_widget_id("2", None, &tree, &names), Some(a));
  assert_eq!(resolve_widget_id("2:0", None, &tree, &names), Some(a));
  assert_eq!(resolve_widget_id("2:1", None, &tree, &names), None);
  assert_eq!(resolve_widget_id("0", None, &tree, &names), None);
  assert_eq!(resolve_widget_id("99", None, &tree, &names), None);
  assert_eq!(resolve_widget_id(&(detached.0 + 1).to_string(), None, &tree, &names), None);
  // The search visits the last child first.
  assert_eq!(resolve_widget_id("Text", None, &tree, &names), Some(a2));
  assert_eq!(resolve_widget_id("name:Box", None, &tree, &names), Some(b));
  assert_eq!(resolve_widget_id("Nope", None, &tree, &names), None);
  assert_eq!(resolve_widget_id("", None, &tree, &names), None);
}

#[test]
fn json_widget_ids_are_taken_as_they_are() {
  let (tree, [a, ..]) = sample();
  let names: Vec<String> = ["Root", "Box", "Text", "Text", "Leaf", "Box"].iter().map(|s| s.to_string()).collect();
  let text = r#"{"index1":2,"stamp":0}"#;
  assert_eq!(resolve_widget_id(text, Some(JsonWidgetId { index1: 2, stamp: 0 }), &tree, &names), Some(a));
  // A deserialized id is not looked up in the tree.
  assert_eq!(
    resolve_widget_id(r#"{"index1":99,"stamp":0}"#, Some(JsonWidgetId { index1: 99, stamp: 0 }), &tree, &names),
    Some(WidgetId(98))
  );
  // No widget of this tree carries another stamp.
  assert_eq!(resolve_widget_id(text, Some(JsonWidgetId { index1: 2, stamp: 3 }), &tree, &names), None);
  assert_eq!(find_widget_id_by_parts(&tree, 2, Some(0)), Some(a));
  assert_eq!(find_widget_id_by_parts(&tree, 99, None), None);
}

#[test]
fn mounting_a_subtree_tells_each_widget() {
  let (tree, [a, a1, a2, a21, _]) = sample();
  let root = tree.root();
  let mut ctx = BuildCtx::new(None, tree, 1);
  ctx.tree.perform_layout(root);
  let mut events = vec![];
  ctx.on_subtree_mounted(a, &mut events);
  let mounted: Vec<WidgetId> = events
    .iter()
    .map(|e| match e {
      DelayEvent::Mounted(w) => *w,
      other => panic!("unexpected event {:?}", other),
    })
    .collect();
  assert_eq!(mounted, [a, a1, a2, a21]);
  assert_eq!(ctx.tree.perform_layout(root), [a, root]);
}
