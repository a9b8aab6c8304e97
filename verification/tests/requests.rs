use ribir_core::bridge::{
  bridge_failure, capture_error, logs_reply, overlay_request, route_bridge_request, unknown_endpoint, BridgeRoute,
  CaptureError,
};
use ribir_core::log_ring::{LogRing, LogRingItem};
use ribir_core::mcp::{
  logs_resource_text, mcp_method, method_not_found, no_active_window, parse_window_id, plan_tool_call, resource_of,
  tool_done_text, tool_failure, McpMethod, PlanError, ResourceKind, ToolArgs, ToolCall, WindowIdArg,
};
use ribir_core::query::InspectOptions;
use ribir_core::service::ServiceError;

#[test]
fn bridge_routes() {
  assert!(matches!(route_bridge_request("GET", "/status"), BridgeRoute::Status));
  assert!(matches!(route_bridge_request("GET", "//windows"), BridgeRoute::Windows));
  assert!(matches!(route_bridge_request("POST", "/status"), BridgeRoute::Unknown));
  match route_bridge_request("GET", "/inspect/tree?options=id") {
    BridgeRoute::InspectTree(o) => assert_eq!(o, InspectOptions { id: true, ..InspectOptions::default() }),
    r => panic!("unexpected route {:?}", r),
  }
  match route_bridge_request("GET", "/inspect/3:0?options=layout") {
    BridgeRoute::InspectWidget { id, options } => {
      assert_eq!(id, "3:0");
      assert!(options.layout);
    }
    r => panic!("unexpected route {:?}", r),
  }
  match route_bridge_request("DELETE", "/overlay/7") {
    BridgeRoute::RemoveOverlay(id) => assert_eq!(id, "7"),
    r => panic!("unexpected route {:?}", r),
  }
  assert!(matches!(route_bridge_request("DELETE", "/overlays"), BridgeRoute::ClearOverlays));
  assert!(matches!(route_bridge_request("GET", "/overlays"), BridgeRoute::GetOverlays));
  assert!(matches!(route_bridge_request("POST", "/overlay"), BridgeRoute::AddOverlay));
  assert!(matches!(route_bridge_request("POST", "/events/inject"), BridgeRoute::InjectEvents));
  assert!(matches!(route_bridge_request("POST", "/events/macro/start"), BridgeRoute::StartMacro));
  assert!(matches!(route_bridge_request("POST", "/events/macro/stop"), BridgeRoute::StopMacro));
  assert!(matches!(route_bridge_request("POST", "/capture/start"), BridgeRoute::CaptureStart));
  assert!(matches!(route_bridge_request("POST", "/capture/stop"), BridgeRoute::CaptureStop));
  assert!(matches!(route_bridge_request("POST", "/capture/one_shot"), BridgeRoute::CaptureOneShot));
  assert!(matches!(route_bridge_request("GET", "/screenshot"), BridgeRoute::Screenshot));
  assert!(matches!(route_bridge_request("POST", "/logs/filter"), BridgeRoute::SetLogFilter));
  assert!(matches!(route_bridge_request("GET", "/logs"), BridgeRoute::Logs((None, None, None, None))));
  assert!(matches!(
    route_bridge_request("GET", "/logs?from_seq=4&limit=2"),
    BridgeRoute::Logs((None, None, Some(2), Some(4)))
  ));
  assert!(matches!(route_bridge_request("GET", "/logsx"), BridgeRoute::Unknown));
  assert_eq!(unknown_endpoint("PUT", "//a/b"), "Unknown endpoint: PUT a/b");
}

#[test]
fn bridge_errors() {
  assert_eq!(capture_error(CaptureError::Conflict), (409, "Capture already in progress".to_string()));
  assert_eq!(capture_error(CaptureError::Timeout), (408, "Capture timeout".to_string()));
  assert_eq!(capture_error(CaptureError::NotFound), (404, "No active capture found".to_string()));
  assert_eq!(capture_error(CaptureError::Internal), (500, "Failed to capture".to_string()));

  let widget = route_bridge_request("GET", "/inspect/3");
  assert_eq!(bridge_failure(&widget, &ServiceError::NotFound), (404, "Widget not found".to_string()));
  assert_eq!(bridge_failure(&widget, &ServiceError::Timeout), (500, "Failed to inspect widget".to_string()));
  let inject = route_bridge_request("POST", "/events/inject");
  assert_eq!(
    bridge_failure(&inject, &ServiceError::Internal("events must not be empty".to_string())),
    (400, "Internal error: events must not be empty".to_string())
  );
  assert_eq!(ServiceError::Timeout.to_string(), "Operation timed out");
  assert_eq!(ServiceError::NotFound.to_string(), "Resource not found");
  assert_eq!(overlay_request(None, None), (String::new(), "#FF000080".to_string()));
  assert_eq!(overlay_request(Some("4"), Some("#00FF00")), ("4".to_string(), "#00FF00".to_string()));
}

fn ring() -> LogRing {
  let mut ring = LogRing::new(10, 1000);
  for (seq, line) in [(1u64, "a"), (2, "b"), (3, "c")] {
    ring.push(LogRingItem { seq, ts_unix_ms: seq * 10, line: line.to_string() });
  }
  ring
}

#[test]
fn logs_replies() {
  let ring = ring();
  let r = logs_reply(&ring, (Some(20), None, None, None));
  assert_eq!(r.data, "b\nc\n");
  assert_eq!((r.max_ts, r.ring_len, r.max_seq), (Some(30), 3, Some(3)));
  let r = logs_reply(&ring, (None, None, Some(1), Some(2)));
  assert_eq!(r.data, "b\n");
  assert_eq!(r.max_seq, Some(2));
  let r = logs_reply(&ring, (None, None, None, Some(9)));
  assert_eq!(r.data, "");
  assert_eq!(r.max_seq, None);
  assert_eq!(logs_resource_text(&ring), "a\nb\nc");
  assert_eq!(logs_resource_text(&LogRing::new(1, 1)), "");
}

#[test]
fn mcp_methods_and_resources() {
  assert_eq!(mcp_method("initialize"), McpMethod::Initialize);
  assert_eq!(mcp_method("notifications/initialized"), McpMethod::Initialized);
  assert_eq!(mcp_method("tools/list"), McpMethod::ListTools);
  assert_eq!(mcp_method("tools/call"), McpMethod::CallTool);
  assert_eq!(mcp_method("resources/list"), McpMethod::ListResources);
  assert_eq!(mcp_method("resources/read"), McpMethod::ReadResource);
  assert_eq!(mcp_method("ping"), McpMethod::Unknown);
  let e = method_not_found("ping");
  assert_eq!((e.code, e.message.as_str()), (-32601, "Method not found: ping"));
  assert!(matches!(resource_of("ribir://logs"), Ok(ResourceKind::Logs)));
  assert!(matches!(resource_of("ribir://windows"), Ok(ResourceKind::Windows)));
  assert!(matches!(resource_of("ribir://status"), Ok(ResourceKind::Status)));
  assert!(matches!(resource_of("ribir://other"), Err(e) if e.code == -32002 && e.message == "Resource not found"));
  let e = no_active_window();
  assert_eq!((e.code, e.message.as_str()), (-32000, "No active window found"));
}

fn args() -> ToolArgs {
  ToolArgs {
    window_id: None,
    id: None,
    options: None,
    color: None,
    filter: None,
    kinds: None,
    is_object: true,
    has_events: false,
  }
}

fn rpc(r: Result<ToolCall, PlanError>) -> (i64, String) {
  match r {
    Err(PlanError::Rpc(e)) => (e.code, e.message),
    other => panic!("expected an error, got {:?}", other),
  }
}

#[test]
fn window_ids() {
  assert_eq!(parse_window_id(&Some(WindowIdArg::Text("12".to_string()))), Some(12));
  assert_eq!(parse_window_id(&Some(WindowIdArg::Text("x".to_string()))), None);
  assert_eq!(parse_window_id(&Some(WindowIdArg::Number(Some(5)))), Some(5));
  assert_eq!(parse_window_id(&Some(WindowIdArg::Number(None))), None);
  assert_eq!(parse_window_id(&Some(WindowIdArg::Other)), None);
  assert_eq!(parse_window_id(&None), None);
}

#[test]
fn tool_calls_are_planned() {
  assert!(matches!(plan_tool_call("capture_screenshot", &args()), Ok(ToolCall::CaptureScreenshot)));
  let a = ToolArgs { window_id: Some(WindowIdArg::Text("2".to_string())), options: Some("id".to_string()), ..args() };
  match plan_tool_call("inspect_tree", &a) {
    Ok(ToolCall::InspectTree { window_id, options }) => {
      assert_eq!(window_id, Some(2));
      assert!(options.id);
    }
    other => panic!("unexpected plan {:?}", other),
  }
  assert_eq!(rpc(plan_tool_call("inspect_widget", &args())), (-32602, "Missing required argument: id".to_string()));
  assert_eq!(rpc(plan_tool_call("remove_overlay", &args())), (-32602, "Missing required argument: id".to_string()));
  assert_eq!(rpc(plan_tool_call("set_log_filter", &args())), (-32602, "Missing filter argument".to_string()));
  match plan_tool_call("add_overlay", &ToolArgs { id: Some("3".to_string()), ..args() }) {
    Ok(ToolCall::AddOverlay { id, color, window_id: None }) => {
      assert_eq!(id, "3");
      assert_eq!(color, "#FF000080");
    }
    other => panic!("unexpected plan {:?}", other),
  }
  match plan_tool_call("start_recording", &args()) {
    Ok(ToolCall::StartRecording { kinds }) => assert_eq!(kinds, ["images"]),
    other => panic!("unexpected plan {:?}", other),
  }
  let logs = ToolArgs { kinds: Some(vec!["logs".to_string(), "images".to_string()]), ..args() };
  match plan_tool_call("start_recording", &logs) {
    Ok(ToolCall::StartRecording { kinds }) => assert_eq!(kinds, ["logs", "images"]),
    other => panic!("unexpected plan {:?}", other),
  }
  let empty = ToolArgs { kinds: Some(vec![]), ..args() };
  assert!(matches!(plan_tool_call("start_recording", &empty), Ok(ToolCall::StartRecording { kinds }) if kinds == ["images"]));
  let bad = ToolArgs { kinds: Some(vec!["logs".to_string(), "video".to_string()]), ..args() };
  assert!(matches!(plan_tool_call("start_recording", &bad), Err(PlanError::UnknownCaptureKind)));
  assert!(matches!(plan_tool_call("stop_recording", &args()), Ok(ToolCall::StopRecording)));
  assert!(matches!(plan_tool_call("capture_one_shot", &args()), Ok(ToolCall::CaptureOneShot)));
  assert!(matches!(plan_tool_call("clear_overlays", &args()), Ok(ToolCall::ClearOverlays { window_id: None })));
  assert!(matches!(plan_tool_call("get_overlays", &args()), Ok(ToolCall::GetOverlays { window_id: None })));
  assert_eq!(
    rpc(plan_tool_call("inject_events", &ToolArgs { is_object: false, ..args() })),
    (-32602, "Invalid params: expected object".to_string())
  );
  assert_eq!(rpc(plan_tool_call("inject_events", &args())), (-32602, "Missing required argument: events".to_string()));
  assert!(matches!(
    plan_tool_call("inject_events", &ToolArgs { has_events: true, ..args() }),
    Ok(ToolCall::InjectEvents { window_id: None })
  ));
  assert_eq!(rpc(plan_tool_call("fly", &args())), (-32601, "Tool not found: fly".to_string()));
}

#[test]
fn tool_answers() {
  let add = plan_tool_call("add_overlay", &ToolArgs { id: Some("3".to_string()), ..args() }).unwrap();
  assert_eq!(tool_done_text(&add), Some("Overlay added to 3".to_string()));
  let e = tool_failure(&add, &ServiceError::NotFound);
  assert_eq!(e.code, -32001);
  assert_eq!(
    e.message,
    "Widget not found for overlay. Supported id formats: '3', '3:0', or '{\"index1\":3,\"stamp\":0}'."
  );
  let e = tool_failure(&add, &ServiceError::Timeout);
  assert_eq!((e.code, e.message.as_str()), (-32000, "Failed to add overlay: Operation timed out"));

  let widget = plan_tool_call("inspect_widget", &ToolArgs { id: Some("3".to_string()), ..args() }).unwrap();
  let e = tool_failure(&widget, &ServiceError::NotFound);
  assert_eq!(
    e.message,
    "Widget not found. Supported id formats: '3', '3:0', or '{\"index1\":3,\"stamp\":0}'. Tip: call \
     inspect_tree(options='id') to discover valid IDs."
  );
  let remove = plan_tool_call("remove_overlay", &ToolArgs { id: Some("3".to_string()), ..args() }).unwrap();
  assert_eq!(tool_done_text(&remove), Some("Overlay removed from 3".to_string()));
  assert_eq!(tool_failure(&remove, &ServiceError::NotFound).code, -32001);
  let filter = plan_tool_call("set_log_filter", &ToolArgs { filter: Some("debug".to_string()), ..args() }).unwrap();
  assert_eq!(tool_done_text(&filter), Some("Log filter set to: debug".to_string()));
  let clear = plan_tool_call("clear_overlays", &args()).unwrap();
  assert_eq!(tool_done_text(&clear), Some("Overlays cleared".to_string()));
  let e = tool_failure(&clear, &ServiceError::Internal("x".to_string()));
  assert_eq!((e.code, e.message.as_str()), (-32000, "Internal error: x"));
  let inject = plan_tool_call("inject_events", &ToolArgs { has_events: true, ..args() }).unwrap();
  assert_eq!(tool_failure(&inject, &ServiceError::Timeout).message, "Failed to inject events: Operation timed out");
  assert_eq!(tool_done_text(&inject), None);
}

#[test]
fn leading_slashes_do_not_matter() {
  for path in ["status", "inspect/3?options=id", "logs?limit=1", "nowhere"] {
    let with = format!("{:?}", route_bridge_request("GET", &format!("/{}", path)));
    let without = format!("{:?}", route_bridge_request("GET", path));
    assert_eq!(with, without);
    assert_eq!(unknown_endpoint("GET", &format!("/{}", path)), unknown_endpoint("GET", path));
  }
}
