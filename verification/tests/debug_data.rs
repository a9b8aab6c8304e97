use ribir_core::log_ring::{LogRing, LogRingItem};
use ribir_core::macro_record::{replay_script, sort_by_time, RecordedEvent, ReplayStep};
use ribir_core::overlays::{
  clear_overlays, get_overlays, parse_hex_color, remove_overlay, set_overlay_hex, OverlayStore,
};
use ribir_core::query::{get_bridge_url, parse_inspect_options, parse_logs_query, parse_query_options, InspectOptions};
use ribir_core::ranking::{sort_ranked, Score};
use ribir_core::service::{check_inject_events, get_overlays_svc, inject_reply, overlay_reply, send_failed, ServiceError};
use ribir_core::text::{
  char_ascii_lower, chars_of, join_names, levenshtein_distance, parse_u64, parse_usize, split_chars, split_once_chars,
  string_from_chars, trim_chars,
};
use ribir_core::widget_tree::WidgetId;

fn s(v: &[char]) -> String { v.iter().collect() }

#[test]
fn inspect_options_from_token_lists() {
  assert_eq!(parse_inspect_options(None), InspectOptions::default());
  let all = parse_inspect_options(Some(" ALL , no_clamp"));
  assert_eq!(all, InspectOptions { id: true, layout: true, global_pos: true, clamp: false, props: true });
  let g = parse_inspect_options(Some("global_pos"));
  assert_eq!(g, InspectOptions { id: false, layout: true, global_pos: true, clamp: false, props: false });
  let unknown = parse_inspect_options(Some("id,,bogus"));
  assert_eq!(unknown, InspectOptions { id: true, ..InspectOptions::default() });
}

#[test]
fn query_options_take_the_last_options_pair() {
  let o = parse_query_options("/inspect?options=id,layout&x=1");
  assert_eq!(o, InspectOptions { id: true, layout: true, ..InspectOptions::default() });
  assert_eq!(parse_query_options("/inspect?options=all&options=no_props"), InspectOptions::default());
  assert_eq!(parse_query_options("/inspect"), InspectOptions::default());
}

#[test]
fn logs_query_fields() {
  assert_eq!(
    parse_logs_query("/logs?since_ts=5&until_ts=x&limit=3&from_seq=9"),
    (Some(5), None, Some(3), Some(9))
  );
  assert_eq!(parse_logs_query("/logs?limit=2?limit=3"), (None, None, Some(2), None));
  assert_eq!(parse_logs_query("/logs"), (None, None, None, None));
}

#[test]
fn bridge_url_is_a_websocket_url() {
  assert_eq!(get_bridge_url(None), Some("ws://127.0.0.1:2333/ws".to_string()));
  assert_eq!(get_bridge_url(Some("https://x.dev".to_string())), Some("wss://x.dev/ws".to_string()));
  assert_eq!(get_bridge_url(Some("http://h:1".to_string())), Some("ws://h:1/ws".to_string()));
  assert_eq!(get_bridge_url(Some("ws://a".to_string())), Some("ws://a".to_string()));
  assert_eq!(get_bridge_url(Some("host:1".to_string())), Some("ws://host:1/ws".to_string()));
}

fn item(seq: u64, ts: u64, line: &str) -> LogRingItem { LogRingItem { seq, ts_unix_ms: ts, line: line.to_string() } }

#[test]
fn log_ring_keeps_the_newest_and_the_young() {
  let mut ring = LogRing::new(3, 100);
  assert_eq!(ring.len(), 0);
  assert_eq!(ring.max_ts(), None);
  ring.push(item(1, 10, "a"));
  ring.push(item(2, 20, "b"));
  ring.push(item(3, 30, "c"));
  ring.push(item(4, 40, "d"));
  assert_eq!(ring.len(), 3);
  assert_eq!(ring.max_ts(), Some(40));
  assert_eq!(ring.max_seq(), Some(4));

  assert_eq!(ring.query_lines(Some(25), None, None), ["c", "d"]);
  assert_eq!(ring.query_lines(None, Some(30), None), ["b", "c"]);
  assert_eq!(ring.query_lines(None, None, Some(1)), ["b"]);
  assert!(ring.query_lines(Some(25), Some(25), None).is_empty());
  assert_eq!(ring.query_lines_from_seq(3, None), [(3, "c".to_string()), (4, "d".to_string())]);
  assert_eq!(ring.query_lines_from_seq(0, Some(1)), [(2, "b".to_string())]);
  assert!(ring.query_lines_from_seq(9, None).is_empty());

  // An entry far newer than the others ages them all out.
  ring.push(item(5, 200, "e"));
  assert_eq!(ring.len(), 1);
  assert_eq!(ring.max_seq(), Some(5));
}

#[test]
fn hex_colors() {
  assert_eq!(parse_hex_color("#FF000080"), Some(0xFF000080));
  assert_eq!(parse_hex_color("00ff00"), Some(0x00FF00FF));
  assert_eq!(parse_hex_color("##abcdef"), Some(0xABCDEFFF));
  assert_eq!(parse_hex_color("#GG0000"), None);
  assert_eq!(parse_hex_color("#123"), None);
  assert_eq!(parse_hex_color(""), None);
}

#[test]
fn overlays_read_back_what_was_set() {
  let mut store = OverlayStore::new();
  assert_eq!(set_overlay_hex(&mut store, 1, WidgetId(2), "#FF000080"), Some(()));
  assert_eq!(set_overlay_hex(&mut store, 1, WidgetId(3), "#12345"), None);
  assert_eq!(get_overlays(&store, 1), [(WidgetId(2), "#FF000080".to_string())]);
  assert_eq!(set_overlay_hex(&mut store, 1, WidgetId(2), "00FF00"), Some(()));
  assert_eq!(get_overlays_svc(&store, 1), [(WidgetId(2), "00FF00".to_string())]);
  assert!(get_overlays(&store, 7).is_empty());

  assert_eq!(remove_overlay(&mut store, 9, WidgetId(2)), None);
  assert_eq!(remove_overlay(&mut store, 1, WidgetId(2)), Some(()));
  assert!(get_overlays(&store, 1).is_empty());

  set_overlay_hex(&mut store, 1, WidgetId(2), "#000000");
  set_overlay_hex(&mut store, 4, WidgetId(2), "#000000");
  clear_overlays(&mut store, Some(1));
  assert!(get_overlays(&store, 1).is_empty());
  assert_eq!(get_overlays(&store, 4).len(), 1);
  clear_overlays(&mut store, None);
  assert!(get_overlays(&store, 4).is_empty());
}

#[test]
fn overlay_lists_agree_up_to_order() {
  let mut store = OverlayStore::new();
  for (id, c) in [(1usize, "#000001"), (2, "#000002"), (3, "#000003")] {
    set_overlay_hex(&mut store, 5, WidgetId(id), c);
  }
  let mut a = get_overlays(&store, 5);
  let mut b = get_overlays_svc(&store, 5);
  a.sort_by_key(|p| p.0 .0);
  b.sort_by_key(|p| p.0 .0);
  assert_eq!(a, b);
  assert_eq!(a.iter().filter(|p| p.0 == WidgetId(2)).count(), 1);
  clear_overlays(&mut store, Some(5));
  assert!(get_overlays_svc(&store, 5).is_empty());
}

#[test]
fn replay_script_sorts_and_inserts_delays() {
  let recorded = || {
    vec![
      RecordedEvent { event: 'a', ts_unix_ms: 120 },
      RecordedEvent { event: 'b', ts_unix_ms: 100 },
      RecordedEvent { event: 'c', ts_unix_ms: 100 },
    ]
  };
  let sorted: Vec<char> = sort_by_time(recorded()).into_iter().map(|e| e.event).collect();
  assert_eq!(sorted, ['b', 'c', 'a']);
  let steps = replay_script(recorded(), 90);
  assert_eq!(steps.len(), 5);
  assert!(matches!(steps[0], ReplayStep::Delay { ms: 10 }));
  assert!(matches!(steps[1], ReplayStep::Event('b')));
  assert!(matches!(steps[2], ReplayStep::Event('c')));
  assert!(matches!(steps[3], ReplayStep::Delay { ms: 20 }));
  assert!(matches!(steps[4], ReplayStep::Event('a')));
  // The delays add up to the time from the start to the latest event.
  let total: u64 = steps.iter().map(|s| if let ReplayStep::Delay { ms } = s { *ms } else { 0 }).sum();
  assert_eq!(total, 120 - 90);
  // Events recorded before the start are replayed without a delay.
  let early = replay_script(vec![RecordedEvent { event: 'x', ts_unix_ms: 5 }], 90);
  assert_eq!(early.len(), 1);
}

#[test]
fn service_errors() {
  assert!(matches!(send_failed(), ServiceError::Internal(m) if m == "Failed to send command"));
  assert!(overlay_reply(Some(true)).is_ok());
  assert!(matches!(overlay_reply(Some(false)), Err(ServiceError::NotFound)));
  assert!(matches!(overlay_reply(None), Err(ServiceError::Internal(m)) if m == "Failed to receive response"));
  assert!(matches!(inject_reply(Some(Ok::<u8, String>(3))), Ok(3)));
  assert!(matches!(inject_reply::<u8>(Some(Err("bad".to_string()))), Err(ServiceError::Internal(m)) if m == "bad"));
  assert!(matches!(inject_reply::<u8>(None), Err(ServiceError::Internal(m)) if m == "Failed to receive response"));
  assert!(matches!(check_inject_events(0), Err(ServiceError::Internal(m)) if m == "events must not be empty"));
  assert!(check_inject_events(2).is_ok());
}

#[test]
fn text_helpers() {
  assert_eq!(levenshtein_distance(&chars_of("kitten"), &chars_of("sitting")), 3);
  assert_eq!(levenshtein_distance(&chars_of("sitting"), &chars_of("kitten")), 3);
  assert_eq!(levenshtein_distance(&chars_of("ab"), &chars_of("ba")), 2);
  assert_eq!(levenshtein_distance(&chars_of(""), &chars_of("abc")), 3);
  assert_eq!(levenshtein_distance(&chars_of("same"), &chars_of("same")), 0);
  let parts: Vec<String> = split_chars(&chars_of("a,b,,c"), ',').iter().map(|p| s(p)).collect();
  assert_eq!(parts, ["a", "b", "", "c"]);
  let (k, v) = split_once_chars(&chars_of("key=a=b"), '=').unwrap();
  assert_eq!((s(&k), s(&v)), ("key".to_string(), "a=b".to_string()));
  assert!(split_once_chars(&chars_of("novalue"), '=').is_none());
  assert_eq!(s(&trim_chars(&chars_of(" \t x y \n"))), "x y");
  assert_eq!(parse_u64(&chars_of("18446744073709551615")), Some(u64::MAX));
  assert_eq!(parse_u64(&chars_of("18446744073709551616")), None);
  assert_eq!(parse_u64(&chars_of("+42")), Some(42));
  assert_eq!(parse_u64(&chars_of("")), None);
  assert_eq!(parse_u64(&chars_of("-1")), None);
  assert_eq!(parse_usize(&chars_of("12")), Some(12));
  assert_eq!(join_names(&vec!["a", "b", "c"], ", "), "a, b, c");
  assert_eq!(join_names(&vec![], ", "), "");
  assert_eq!(string_from_chars(&vec!['h', 'é']), "hé");
  assert_eq!(char_ascii_lower('Q'), 'q');
  assert_eq!(char_ascii_lower('É'), 'É');
}

#[test]
fn ranking_is_stable() {
  let sc = |dist: usize, prefix: bool, inner: bool, idx: usize| Score { dist, prefix, inner, idx };
  let r = sort_ranked(vec![sc(2, false, false, 0), sc(1, false, true, 1), sc(1, true, true, 2), sc(1, false, true, 3)]);
  let order: Vec<usize> = r.iter().map(|x| x.idx).collect();
  assert_eq!(order, [2, 1, 3, 0]);
}
