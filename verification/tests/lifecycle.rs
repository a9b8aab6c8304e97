use std::collections::{HashMap, HashSet};

use ribir_core::lifecycle::{DisposedEvent, Preserve};
use ribir_core::events::DispatchInfo;
use ribir_core::widget_tree::{WidgetAttrs, WidgetId, WidgetTree};

fn plain() -> WidgetAttrs {
  WidgetAttrs { tab_index: None, auto_focus: false, focusable: false, scope: None, sized_by_parent: false }
}

fn add(tree: &mut WidgetTree, parent: WidgetId, names: &mut HashMap<WidgetId, &'static str>, name: &'static str) -> WidgetId {
  let id = tree.alloc_node(plain());
  tree.append(parent, id);
  if !name.is_empty() {
    names.insert(id, name);
  }
  id
}

/// Mounted events of `id`'s subtree, for the widgets with a handler.
fn mounted(tree: &WidgetTree, id: WidgetId, names: &HashMap<WidgetId, &'static str>, log: &mut Vec<String>) {
  for w in tree.descendants(id) {
    if let Some(n) = names.get(&w) {
      log.push(format!("{} mounted", n));
    }
  }
}

/// A frame: every widget that needs layout is laid out.
fn draw_frame(tree: &mut WidgetTree, names: &HashMap<WidgetId, &'static str>, log: &mut Vec<String>) {
  let root = tree.root();
  for w in tree.perform_layout(root) {
    if let Some(n) = names.get(&w) {
      log.push(format!("{} performed layout", n));
    }
  }
}

fn disposed(tree: &mut WidgetTree, id: WidgetId, names: &HashMap<WidgetId, &'static str>, log: &mut Vec<String>) {
  let parent = tree.parent(id).unwrap();
  for w in tree.dispose_subtree(id, &Vec::new()) {
    if let Some(n) = names.get(&w) {
      log.push(format!("{} disposed", n));
    }
  }
  tree.mark_dirty(parent);
}

#[test]
fn full_lifecycle() {
  let mut tree = WidgetTree::new(plain());
  let mut names = HashMap::new();
  let mut lifecycle: Vec<String> = vec![];
  let root = tree.root();
  let outer = add(&mut tree, root, &mut names, "");
  let stat = add(&mut tree, outer, &mut names, "static");
  let dyn1 = add(&mut tree, stat, &mut names, "dyn");
  mounted(&tree, stat, &names, &mut lifecycle);
  assert_eq!(lifecycle, ["static mounted", "dyn mounted"]);

  draw_frame(&mut tree, &names, &mut lifecycle);
  assert_eq!(
    lifecycle,
    ["static mounted", "dyn mounted", "dyn performed layout", "static performed layout"]
  );

  // The trigger changes: the dynamic child is rebuilt.
  disposed(&mut tree, dyn1, &names, &mut lifecycle);
  let dyn2 = add(&mut tree, stat, &mut names, "dyn");
  mounted(&tree, dyn2, &names, &mut lifecycle);
  draw_frame(&mut tree, &names, &mut lifecycle);
  assert_eq!(
    lifecycle,
    [
      "static mounted",
      "dyn mounted",
      "dyn performed layout",
      "static performed layout",
      "dyn disposed",
      "dyn mounted",
      "dyn performed layout",
      "static performed layout",
    ]
  );

  // The static part is removed with its dynamic child.
  disposed(&mut tree, stat, &names, &mut lifecycle);
  draw_frame(&mut tree, &names, &mut lifecycle);
  assert_eq!(
    lifecycle,
    [
      "static mounted",
      "dyn mounted",
      "dyn performed layout",
      "static performed layout",
      "dyn disposed",
      "dyn mounted",
      "dyn performed layout",
      "static performed layout",
      "static disposed",
      "dyn disposed"
    ]
  );
}

#[test]
fn track_lifecycle() {
  let mut tree = WidgetTree::new(plain());
  let root = tree.root();
  let multi = tree.alloc_node(plain());
  tree.append(root, multi);
  let mut mounted: HashSet<WidgetId> = HashSet::new();
  let mut disposed: HashSet<WidgetId> = HashSet::new();

  let mut build = |tree: &mut WidgetTree, cnt: usize, mounted: &mut HashSet<WidgetId>| {
    let mut ids = vec![];
    for _ in 0..cnt {
      let b = tree.alloc_node(plain());
      tree.append(multi, b);
      for w in tree.descendants(b) {
        mounted.insert(w);
      }
      ids.push(b);
    }
    ids
  };

  let first = build(&mut tree, 3, &mut mounted);
  tree.perform_layout(root);
  let mounted_ids = mounted.clone();

  // The count changes to 5: the boxes are rebuilt.
  for b in first {
    for w in tree.dispose_subtree(b, &Vec::new()) {
      disposed.insert(w);
    }
  }
  build(&mut tree, 5, &mut mounted);
  tree.perform_layout(root);

  assert_eq!(mounted_ids.len(), 3);
  assert_eq!(&mounted_ids, &disposed);
}

#[test]
fn preserve_descendant_survives_outer_remove() {
  let mut tree = WidgetTree::new(plain());
  let root = tree.root();
  let host = tree.alloc_node(plain());
  tree.append(root, host);
  let outer = tree.alloc_node(plain());
  tree.append(host, outer);
  let kept = tree.alloc_node(plain());
  tree.append(outer, kept);
  tree.perform_layout(root);

  // `show` becomes false: the outer box is disposed; the kept child's
  // disposed handler preserves it.
  let mut keep: Option<Preserve> = None;
  let mut preserving = vec![];
  for w in tree.descendants(outer) {
    if w == kept {
      let mut e = DisposedEvent::new(w, DispatchInfo::new());
      keep = Some(e.preserve(&tree, &mut preserving, 1));
      assert!(e.is_preserved());
    }
  }
  let reached = tree.dispose_subtree(outer, &preserving);
  assert_eq!(reached, vec![outer, kept]);

  assert!(keep.is_some());
  assert!(!tree.is_dropped(kept));
  assert!(tree.is_dropped(outer));
}

#[test]
fn preserve_root_skip_remove_until_drop() {
  let mut tree = WidgetTree::new(plain());
  let root = tree.root();
  let id = tree.alloc_node(plain());
  tree.append(root, id);
  tree.perform_layout(root);

  let mut lifecycle = vec![];
  let mut e = DisposedEvent::new(id, DispatchInfo::new());
  let mut preserving = vec![];
  let mut keep = Some(e.preserve(&tree, &mut preserving, 1));
  assert_eq!(preserving, vec![id]);
  let reached = tree.dispose_subtree(id, &preserving);
  for w in &reached {
    lifecycle.push(format!("dispose {:?}", w));
  }
  assert!(keep.is_some());
  assert!(!tree.is_dropped(id));
  assert_eq!(lifecycle.len(), 1);

  let reached = keep.take().unwrap().release(&mut tree);
  assert!(tree.is_dropped(id));
  assert_eq!(reached, vec![id]);
}

#[test]
fn preserved_widget_can_be_put_back() {
  let mut tree = WidgetTree::new(plain());
  let root = tree.root();
  let id = tree.alloc_node(plain());
  tree.append(root, id);
  let mut e = DisposedEvent::new(id, DispatchInfo::new());
  let mut preserving = vec![];
  let mut keep = e.preserve(&tree, &mut preserving, 7);
  tree.dispose_subtree(id, &preserving);
  let back = keep.take_widget(7);
  assert_eq!(back, id);
  tree.append(root, back);
  // Releasing a handle that gave its widget back disposes of nothing.
  assert!(keep.release(&mut tree).is_empty());
  assert!(!tree.is_dropped(id));
}
