use ribir_core::change_set::ChangeDataset;

#[test]
fn only_the_first_change_of_a_batch_asks_for_a_notification() {
  let mut ds = ChangeDataset::new();
  assert!(ds.add_changed(1));
  assert!(!ds.add_changed(2));
  assert_eq!(ds.take_batch(), vec![1, 2]);
  assert!(ds.take_batch().is_empty());
  // The queue is empty again: the next change asks again.
  assert!(ds.add_changed(3));
}

#[test]
fn a_notification_takes_batches_until_none_is_left() {
  let mut ds = ChangeDataset::new();
  ds.add_changed(1u32);
  assert!(ds.begin_emit());
  // A notification never runs twice at once.
  assert!(!ds.begin_emit());
  let mut notified = vec![];
  loop {
    let batch = ds.take_batch();
    if batch.is_empty() {
      break;
    }
    for x in batch {
      notified.push(x);
      // An observer queues a follow-up change while the notification runs:
      // it asks for no new notification, this one takes it.
      if x < 3 {
        assert!(!ds.add_changed(x + 1));
      }
    }
  }
  ds.end_emit();
  assert_eq!(notified, vec![1, 2, 3]);
  assert!(ds.begin_emit());
}

#[test]
fn a_round_tells_each_change_and_queues_what_follows() {
  let mut ds = ChangeDataset::new();
  ds.add_changed(1u32);
  ds.add_changed(5u32);
  assert!(ds.begin_emit());
  let follow = |x: u32| if x < 3 { vec![x + 1] } else { vec![] };
  let mut rounds = 0;
  while ds.emit_round(&follow) {
    rounds += 1;
  }
  // 1 and 5, then 2, then 3.
  assert_eq!(rounds, 3);
  assert!(ds.take_batch().is_empty());
  ds.end_emit();
}
