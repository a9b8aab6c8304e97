use ribir_core::widget_tree::{WidgetAttrs, WidgetId, WidgetTree};

fn attrs(sized_by_parent: bool) -> WidgetAttrs {
  WidgetAttrs { tab_index: None, auto_focus: false, focusable: false, scope: None, sized_by_parent }
}

fn add(tree: &mut WidgetTree, parent: WidgetId, sized_by_parent: bool) -> WidgetId {
  let id = tree.alloc_node(attrs(sized_by_parent));
  tree.append(parent, id);
  id
}

fn laid_out(tree: &WidgetTree, w: WidgetId) -> bool { tree.nodes[w.0].laid_out }

/// root ─ a (sized by its parent) ─ b ─ c, and root ─ d ─ (e, f)
fn sample() -> (WidgetTree, [WidgetId; 6]) {
  let mut tree = WidgetTree::new(attrs(false));
  let root = tree.root();
  let a = add(&mut tree, root, true);
  let b = add(&mut tree, a, false);
  let c = add(&mut tree, b, false);
  let d = add(&mut tree, root, false);
  let e = add(&mut tree, d, false);
  let f = add(&mut tree, d, false);
  tree.perform_layout(root);
  (tree, [a, b, c, d, e, f])
}

#[test]
fn nothing_changed_means_no_layout_list() {
  let (mut tree, _) = sample();
  assert_eq!(tree.layout_list(&vec![]), None);
}

#[test]
fn relayout_stops_at_a_widget_sized_by_its_parent() {
  let (mut tree, [a, b, c, ..]) = sample();
  let root = tree.root();
  assert_eq!(tree.layout_list(&vec![c]), Some(vec![b]));
  assert!(!laid_out(&tree, c));
  assert!(!laid_out(&tree, b));
  assert!(laid_out(&tree, a));
  assert!(laid_out(&tree, root));
  // Laying out again restores what was forgotten, children first.
  assert_eq!(tree.perform_layout(b), [c, b]);
}

#[test]
fn relayout_roots_come_deepest_first() {
  let (mut tree, [_, b, c, d, e, f]) = sample();
  let root = tree.root();
  assert_eq!(tree.layout_list(&vec![c]), Some(vec![b]));
  // `c` has no layout any more, so it is laid out by itself; `e` takes
  // `d` and the root with it; an unknown widget is passed over.
  assert_eq!(tree.layout_list(&vec![WidgetId(99), e, c]), Some(vec![c, root]));
  assert!(!laid_out(&tree, e));
  assert!(!laid_out(&tree, d));
  assert!(!laid_out(&tree, root));
  assert!(laid_out(&tree, f));
  // `f` takes `d` and the root with it; `e` has no layout any more.
  assert_eq!(tree.layout_list(&vec![f, e]), Some(vec![e, root]));
  // Widgets of equal depth keep their order.
  assert_eq!(tree.layout_list(&vec![f, e]), Some(vec![f, e]));
  assert_eq!(tree.layout_list(&vec![e, f]), Some(vec![e, f]));
}

#[test]
fn disposed_widgets_are_passed_over() {
  let (mut tree, [_, _, _, d, e, _]) = sample();
  let gone = tree.dispose_subtree(d, &vec![]);
  assert!(gone.contains(&e));
  assert_eq!(tree.layout_list(&vec![e]), Some(vec![]));
}
