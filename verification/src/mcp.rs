//! Requests of the model-context protocol: which method, tool or resource a
//! request names, whether its arguments are complete, and what is answered
//! for the outcomes that do not depend on the running windows.
use vstd::prelude::*;

use crate::bridge::CaptureError;
use crate::log_ring::{queried_lines, LogRing};
use crate::query::{inspect_options_of, parse_inspect_options, InspectOptions};
use crate::service::{service_error_text, ServiceError};
use crate::text::{chars_eq_str, chars_of, parse_u64, parse_unsigned, push_text_copy, texts_of};

verus! {

/// A JSON-RPC error: its code and message.
#[derive(Debug)]
pub struct RpcError {
    pub code: i64,
    pub message: String,
}

/// An error with a fixed message.
fn rpc_error(code: i64, message: &str) -> (r: RpcError)
    ensures
        r.code == code,
        r.message@ == message@,
{
    RpcError { code, message: message.to_owned() }
}

/// `prefix` followed by `tail`.
fn concat_text(prefix: &str, tail: &str) -> (r: String)
    ensures
        r@ == prefix@ + tail@,
{
    let mut m = String::new();
    m.append(prefix);
    m.append(tail);
    m
}

/// An error whose message is `prefix` followed by `tail`.
fn rpc_error2(code: i64, prefix: &str, tail: &str) -> (r: RpcError)
    ensures
        r.code == code,
        r.message@ == prefix@ + tail@,
{
    RpcError { code, message: concat_text(prefix, tail) }
}

/// A method of the protocol.
#[derive(Debug, Clone, Copy, PartialEq, Eq, Structural)]
pub enum McpMethod {
    Initialize,
    Initialized,
    ListTools,
    CallTool,
    ListResources,
    ReadResource,
    Unknown,
}

/// The method that a request's method name names.
pub open spec fn method_of(name: Seq<char>) -> McpMethod {
    if name == "initialize"@ {
        McpMethod::Initialize
    } else if name == "notifications/initialized"@ {
        McpMethod::Initialized
    } else if name == "tools/list"@ {
        McpMethod::ListTools
    } else if name == "tools/call"@ {
        McpMethod::CallTool
    } else if name == "resources/list"@ {
        McpMethod::ListResources
    } else if name == "resources/read"@ {
        McpMethod::ReadResource
    } else {
        McpMethod::Unknown
    }
}

/// The method that a request names.
pub fn mcp_method(name: &str) -> (r: McpMethod)
    ensures
        r == method_of(name@),
{
    let n = chars_of(name);
    if chars_eq_str(&n, "initialize") {
        McpMethod::Initialize
    } else if chars_eq_str(&n, "notifications/initialized") {
        McpMethod::Initialized
    } else if chars_eq_str(&n, "tools/list") {
        McpMethod::ListTools
    } else if chars_eq_str(&n, "tools/call") {
        McpMethod::CallTool
    } else if chars_eq_str(&n, "resources/list") {
        McpMethod::ListResources
    } else if chars_eq_str(&n, "resources/read") {
        McpMethod::ReadResource
    } else {
        McpMethod::Unknown
    }
}

/// The error answered for a method that the server does not know.
pub fn method_not_found(name: &str) -> (r: RpcError)
    ensures
        r.code == -32601,
        r.message@ == "Method not found: "@ + name@,
{
    rpc_error2(-32601i64, "Method not found: ", name)
}

/// A resource of the server.
#[derive(Debug, Clone, Copy, PartialEq, Eq, Structural)]
pub enum ResourceKind {
    Logs,
    Windows,
    Status,
}

/// The resource that `uri` names.
pub open spec fn resource_kind_of(uri: Seq<char>) -> Option<ResourceKind> {
    if uri == "ribir://logs"@ {
        Some(ResourceKind::Logs)
    } else if uri == "ribir://windows"@ {
        Some(ResourceKind::Windows)
    } else if uri == "ribir://status"@ {
        Some(ResourceKind::Status)
    } else {
        None
    }
}

/// The resource that `uri` names, or the error answered when it names none.
pub fn resource_of(uri: &str) -> (r: Result<ResourceKind, RpcError>)
    ensures
        match resource_kind_of(uri@) {
            Some(k) => r matches Ok(x) && x == k,
            None => r matches Err(e) && e.code == -32002i64 && e.message@ == "Resource not found"@,
        },
{
    let u = chars_of(uri);
    if chars_eq_str(&u, "ribir://logs") {
        Ok(ResourceKind::Logs)
    } else if chars_eq_str(&u, "ribir://windows") {
        Ok(ResourceKind::Windows)
    } else if chars_eq_str(&u, "ribir://status") {
        Ok(ResourceKind::Status)
    } else {
        Err(rpc_error(-32002i64, "Resource not found"))
    }
}

/// The lines joined with line breaks between them.
pub open spec fn joined_lines(lines: Seq<Seq<char>>) -> Seq<char>
    decreases lines.len(),
{
    if lines.len() == 0 {
        Seq::empty()
    } else if lines.len() == 1 {
        lines[0]
    } else {
        joined_lines(lines.drop_last()) + seq!['\n'] + lines.last()
    }
}

/// The text of the logs resource: the first hundred buffered lines, joined
/// with line breaks.
pub fn logs_resource_text(ring: &LogRing) -> (r: String)
    ensures
        r@ == joined_lines(queried_lines(ring.view_items(), None, None, Some(100))),
{
    let lines = ring.query_lines(None, None, Some(100));
    let ghost all = lines@.map_values(|l: String| l@);
    let mut out = String::new();
    let mut i: usize = 0;
    while i < lines.len()
        invariant
            i <= lines@.len(),
            all == lines@.map_values(|l: String| l@),
            out@ == joined_lines(all.take(i as int)),
        decreases lines.len() - i,
    {
        assert(all.take(i + 1).drop_last() == all.take(i as int));
        assert(all.take(i + 1).last() == lines@[i as int]@);
        if i > 0 {
            out.append("\n");
            proof {
                reveal_strlit("\n");
            }
        }
        out.append(lines[i].as_str());
        assert(out@ == joined_lines(all.take(i + 1)));
        i = i + 1;
    }
    assert(all.take(lines@.len() as int) == all);
    out
}

/// A `window_id` argument as it came: a text, a number (its value when it
/// is an unsigned integer), or something else.
#[derive(Debug)]
pub enum WindowIdArg {
    Text(String),
    Number(Option<u64>),
    Other,
}

/// The window that a `window_id` argument names.
pub open spec fn window_id_of(arg: Option<WindowIdArgView>) -> Option<u64> {
    match arg {
        Some(WindowIdArgView::Text(s)) => match parse_unsigned(s, u64::MAX as nat) {
            Some(v) => Some(v as u64),
            None => None,
        },
        Some(WindowIdArgView::Number(n)) => n,
        _ => None,
    }
}

/// A `window_id` argument, its text as a character sequence.
pub enum WindowIdArgView {
    Text(Seq<char>),
    Number(Option<u64>),
    Other,
}

impl View for WindowIdArg {
    type V = WindowIdArgView;

    open spec fn view(&self) -> WindowIdArgView {
        match self {
            WindowIdArg::Text(s) => WindowIdArgView::Text(s@),
            WindowIdArg::Number(n) => WindowIdArgView::Number(*n),
            WindowIdArg::Other => WindowIdArgView::Other,
        }
    }
}

/// The window that a `window_id` argument names: a text of decimal digits,
/// or an unsigned number.
pub fn parse_window_id(arg: &Option<WindowIdArg>) -> (r: Option<u64>)
    ensures
        r == window_id_of(match arg { Some(a) => Some(a@), None => None }),
{
    match arg {
        Some(WindowIdArg::Text(s)) => parse_u64(&chars_of(s.as_str())),
        Some(WindowIdArg::Number(n)) => *n,
        _ => None,
    }
}

/// The arguments of a tool call, as far as the server reads them: the
/// text-valued `id`, `options`, `color` and `filter`, the `window_id`, the
/// list of what a recording captures (absent when the call has no
/// arguments), whether the arguments are an object and whether they hold
/// `events`.
#[derive(Debug)]
pub struct ToolArgs {
    pub window_id: Option<WindowIdArg>,
    pub id: Option<String>,
    pub options: Option<String>,
    pub color: Option<String>,
    pub filter: Option<String>,
    pub kinds: Option<Vec<String>>,
    pub is_object: bool,
    pub has_events: bool,
}

/// What the server reads of the arguments of a tool call.
pub struct ToolArgsView {
    pub window_id: Option<u64>,
    pub id: Option<Seq<char>>,
    pub options: Option<Seq<char>>,
    pub color: Option<Seq<char>>,
    pub filter: Option<Seq<char>>,
    pub kinds: Option<Seq<Seq<char>>>,
    pub is_object: bool,
    pub has_events: bool,
}

pub open spec fn opt_text(o: Option<String>) -> Option<Seq<char>> {
    match o {
        Some(s) => Some(s@),
        None => None,
    }
}

impl View for ToolArgs {
    type V = ToolArgsView;

    open spec fn view(&self) -> ToolArgsView {
        ToolArgsView {
            window_id: window_id_of(match self.window_id { Some(a) => Some(a@), None => None }),
            id: opt_text(self.id),
            options: opt_text(self.options),
            color: opt_text(self.color),
            filter: opt_text(self.filter),
            kinds: match self.kinds {
                Some(v) => Some(texts_of(v@)),
                None => None,
            },
            is_object: self.is_object,
            has_events: self.has_events,
        }
    }
}

/// A tool call whose arguments are complete.
#[derive(Debug)]
pub enum ToolCall {
    CaptureScreenshot,
    InspectTree { window_id: Option<u64>, options: InspectOptions },
    InspectWidget { window_id: Option<u64>, id: String, options: InspectOptions },
    GetOverlays { window_id: Option<u64> },
    SetLogFilter { filter: String },
    AddOverlay { window_id: Option<u64>, id: String, color: String },
    RemoveOverlay { window_id: Option<u64>, id: String },
    ClearOverlays { window_id: Option<u64> },
    StartRecording { kinds: Vec<String> },
    StopRecording,
    CaptureOneShot,
    InjectEvents { window_id: Option<u64> },
}

/// A tool call, its texts as character sequences.
pub enum ToolCallView {
    CaptureScreenshot,
    InspectTree { window_id: Option<u64>, options: InspectOptions },
    InspectWidget { window_id: Option<u64>, id: Seq<char>, options: InspectOptions },
    GetOverlays { window_id: Option<u64> },
    SetLogFilter { filter: Seq<char> },
    AddOverlay { window_id: Option<u64>, id: Seq<char>, color: Seq<char> },
    RemoveOverlay { window_id: Option<u64>, id: Seq<char> },
    ClearOverlays { window_id: Option<u64> },
    StartRecording { kinds: Seq<Seq<char>> },
    StopRecording,
    CaptureOneShot,
    InjectEvents { window_id: Option<u64> },
}

impl View for ToolCall {
    type V = ToolCallView;

    open spec fn view(&self) -> ToolCallView {
        match self {
            ToolCall::CaptureScreenshot => ToolCallView::CaptureScreenshot,
            ToolCall::InspectTree { window_id, options } => ToolCallView::InspectTree {
                window_id: *window_id,
                options: *options,
            },
            ToolCall::InspectWidget { window_id, id, options } => ToolCallView::InspectWidget {
                window_id: *window_id,
                id: id@,
                options: *options,
            },
            ToolCall::GetOverlays { window_id } => ToolCallView::GetOverlays { window_id: *window_id },
            ToolCall::SetLogFilter { filter } => ToolCallView::SetLogFilter { filter: filter@ },
            ToolCall::AddOverlay { window_id, id, color } => ToolCallView::AddOverlay {
                window_id: *window_id,
                id: id@,
                color: color@,
            },
            ToolCall::RemoveOverlay { window_id, id } => ToolCallView::RemoveOverlay { window_id: *window_id, id: id@ },
            ToolCall::ClearOverlays { window_id } => ToolCallView::ClearOverlays { window_id: *window_id },
            ToolCall::StartRecording { kinds } => ToolCallView::StartRecording {
                kinds: texts_of(kinds@),
            },
            ToolCall::StopRecording => ToolCallView::StopRecording,
            ToolCall::CaptureOneShot => ToolCallView::CaptureOneShot,
            ToolCall::InjectEvents { window_id } => ToolCallView::InjectEvents { window_id: *window_id },
        }
    }
}

/// Every entry of a recording's list of kinds is `logs` or `images`.
pub open spec fn all_capturable(s: Seq<Seq<char>>) -> bool {
    forall|k: int| 0 <= k < s.len() ==> (#[trigger] s[k] == "logs"@ || s[k] == "images"@)
}

/// What a recording captures: images when nothing is named; `None` when
/// something other than logs and images is named.
pub open spec fn recording_kinds(kinds: Option<Seq<Seq<char>>>) -> Option<Seq<Seq<char>>> {
    match kinds {
        None => Some(seq!["images"@]),
        Some(s) => if s.len() == 0 {
            Some(seq!["images"@])
        } else if all_capturable(s) {
            Some(s)
        } else {
            None
        },
    }
}

/// Why a tool call cannot be made.
#[derive(Debug)]
pub enum PlanError {
    /// Answered with this error.
    Rpc(RpcError),
    /// A recording names something other than logs and images: answered
    /// with code -32602 and a message that lists the two allowed values.
    UnknownCaptureKind,
}

/// Why a tool call cannot be made: an error to answer with its code and
/// message, or `None` for a recording that names an unknown kind.
pub open spec fn plan_error_view(e: PlanError) -> Option<(i64, Seq<char>)> {
    match e {
        PlanError::Rpc(x) => Some((x.code, x.message@)),
        PlanError::UnknownCaptureKind => None,
    }
}

/// The tool call that `name` with `args` asks for, or why it cannot be
/// made: the tool is unknown, an argument it needs is missing or invalid.
pub open spec fn tool_plan(name: Seq<char>, a: ToolArgsView) -> Result<ToolCallView, Option<(i64, Seq<char>)>> {
    let missing_id = Err(Some((-32602i64, "Missing required argument: id"@)));
    if name == "capture_screenshot"@ {
        Ok(ToolCallView::CaptureScreenshot)
    } else if name == "inspect_tree"@ {
        Ok(ToolCallView::InspectTree { window_id: a.window_id, options: inspect_options_of(a.options) })
    } else if name == "inspect_widget"@ {
        match a.id {
            Some(id) => Ok(ToolCallView::InspectWidget { window_id: a.window_id, id, options: inspect_options_of(a.options) }),
            None => missing_id,
        }
    } else if name == "get_overlays"@ {
        Ok(ToolCallView::GetOverlays { window_id: a.window_id })
    } else if name == "set_log_filter"@ {
        match a.filter {
            Some(filter) => Ok(ToolCallView::SetLogFilter { filter }),
            None => Err(Some((-32602i64, "Missing filter argument"@))),
        }
    } else if name == "add_overlay"@ {
        match a.id {
            Some(id) => Ok(ToolCallView::AddOverlay {
                window_id: a.window_id,
                id,
                color: match a.color { Some(c) => c, None => "#FF000080"@ },
            }),
            None => missing_id,
        }
    } else if name == "remove_overlay"@ {
        match a.id {
            Some(id) => Ok(ToolCallView::RemoveOverlay { window_id: a.window_id, id }),
            None => missing_id,
        }
    } else if name == "clear_overlays"@ {
        Ok(ToolCallView::ClearOverlays { window_id: a.window_id })
    } else if name == "start_recording"@ {
        match recording_kinds(a.kinds) {
            Some(kinds) => Ok(ToolCallView::StartRecording { kinds }),
            None => Err(None),
        }
    } else if name == "stop_recording"@ {
        Ok(ToolCallView::StopRecording)
    } else if name == "capture_one_shot"@ {
        Ok(ToolCallView::CaptureOneShot)
    } else if name == "inject_events"@ {
        if !a.is_object {
            Err(Some((-32602i64, "Invalid params: expected object"@)))
        } else if !a.has_events {
            Err(Some((-32602i64, "Missing required argument: events"@)))
        } else {
            Ok(ToolCallView::InjectEvents { window_id: a.window_id })
        }
    } else {
        Err(Some((-32601i64, "Tool not found: "@ + name)))
    }
}

/// An owned copy of an optional text.
pub(crate) fn copy_text(o: &Option<String>) -> (r: Option<String>)
    ensures
        opt_text(r) == opt_text(*o),
{
    match o {
        Some(s) => Some(s.as_str().to_owned()),
        None => None,
    }
}

/// What a recording captures: images when nothing is named; `None` when
/// something other than logs and images is named.
fn plan_kinds(kinds: &Option<Vec<String>>) -> (r: Option<Vec<String>>)
    ensures
        match recording_kinds(match kinds { Some(v) => Some(texts_of(v@)), None => None }) {
            Some(s) => r matches Some(v) && texts_of(v@) == s,
            None => r is None,
        },
{
    let images = || -> (v: Vec<String>)
        ensures
            texts_of(v@) == seq!["images"@],
    {
        let mut v: Vec<String> = Vec::new();
        push_text_copy(&mut v, "images");
        assert(texts_of(Seq::<String>::empty()) =~= Seq::<Seq<char>>::empty());
        assert(seq!["images"@] =~= Seq::<Seq<char>>::empty().push("images"@));
        v
    };
    match kinds {
        None => Some(images()),
        Some(list) => {
            let ghost lv = texts_of(list@);
            assert(lv.len() == list@.len());
            if list.len() == 0 {
                return Some(images());
            }
            let mut out: Vec<String> = Vec::new();
            assert(texts_of(out@) =~= lv.take(0));
            let mut i: usize = 0;
            while i < list.len()
                invariant
                    i <= list@.len(),
                    lv == texts_of(list@),
                    list@.len() > 0,
                    kinds matches Some(l) && l@ == list@,
                    forall|k: int| 0 <= k < i ==> (#[trigger] lv[k] == "logs"@ || lv[k] == "images"@),
                    texts_of(out@) == lv.take(i as int),
                decreases list.len() - i,
            {
                let item = chars_of(list[i].as_str());
                assert(lv[i as int] == list@[i as int]@);
                if !(chars_eq_str(&item, "logs") || chars_eq_str(&item, "images")) {
                    assert(!all_capturable(lv));
                    return None;
                }
                push_text_copy(&mut out, list[i].as_str());
                assert(texts_of(out@) =~= lv.take(i + 1));
                i = i + 1;
            }
            assert(lv.take(list@.len() as int) =~= lv);
            assert(all_capturable(lv));
            Some(out)
        },
    }
}

/// The tool call that `name` with `args` asks for, or the error answered
/// when the tool is unknown or an argument it needs is missing.
pub fn plan_tool_call(name: &str, args: &ToolArgs) -> (r: Result<ToolCall, PlanError>)
    ensures
        match tool_plan(name@, args@) {
            Ok(c) => r matches Ok(x) && x@ == c,
            Err(e) => r matches Err(x) && plan_error_view(x) == e,
        },
{
    let n = chars_of(name);
    let window_id = parse_window_id(&args.window_id);
    let options = match &args.options {
        Some(o) => parse_inspect_options(Some(o.as_str())),
        None => parse_inspect_options(None),
    };
    if chars_eq_str(&n, "capture_screenshot") {
        Ok(ToolCall::CaptureScreenshot)
    } else if chars_eq_str(&n, "inspect_tree") {
        Ok(ToolCall::InspectTree { window_id, options })
    } else if chars_eq_str(&n, "inspect_widget") {
        match copy_text(&args.id) {
            Some(id) => Ok(ToolCall::InspectWidget { window_id, id, options }),
            None => Err(PlanError::Rpc(rpc_error(-32602i64, "Missing required argument: id"))),
        }
    } else if chars_eq_str(&n, "get_overlays") {
        Ok(ToolCall::GetOverlays { window_id })
    } else if chars_eq_str(&n, "set_log_filter") {
        match copy_text(&args.filter) {
            Some(filter) => Ok(ToolCall::SetLogFilter { filter }),
            None => Err(PlanError::Rpc(rpc_error(-32602i64, "Missing filter argument"))),
        }
    } else if chars_eq_str(&n, "add_overlay") {
        match copy_text(&args.id) {
            Some(id) => {
                let color = match copy_text(&args.color) {
                    Some(c) => c,
                    None => "#FF000080".to_owned(),
                };
                Ok(ToolCall::AddOverlay { window_id, id, color })
            },
            None => Err(PlanError::Rpc(rpc_error(-32602i64, "Missing required argument: id"))),
        }
    } else if chars_eq_str(&n, "remove_overlay") {
        match copy_text(&args.id) {
            Some(id) => Ok(ToolCall::RemoveOverlay { window_id, id }),
            None => Err(PlanError::Rpc(rpc_error(-32602i64, "Missing required argument: id"))),
        }
    } else if chars_eq_str(&n, "clear_overlays") {
        Ok(ToolCall::ClearOverlays { window_id })
    } else if chars_eq_str(&n, "start_recording") {
        match plan_kinds(&args.kinds) {
            Some(kinds) => Ok(ToolCall::StartRecording { kinds }),
            None => Err(PlanError::UnknownCaptureKind),
        }
    } else if chars_eq_str(&n, "stop_recording") {
        Ok(ToolCall::StopRecording)
    } else if chars_eq_str(&n, "capture_one_shot") {
        Ok(ToolCall::CaptureOneShot)
    } else if chars_eq_str(&n, "inject_events") {
        if !args.is_object {
            Err(PlanError::Rpc(rpc_error(-32602i64, "Invalid params: expected object")))
        } else if !args.has_events {
            Err(PlanError::Rpc(rpc_error(-32602i64, "Missing required argument: events")))
        } else {
            Ok(ToolCall::InjectEvents { window_id })
        }
    } else {
        Err(PlanError::Rpc(rpc_error2(-32601i64, "Tool not found: ", name)))
    }
}

/// The error answered when the service call of `call` fails with `err`.
pub open spec fn tool_failure_of(call: ToolCallView, err: ServiceError) -> (i64, Seq<char>) {
    let text = service_error_text(err);
    match call {
        ToolCallView::InspectWidget { .. } => if err is NotFound {
            (-32001i64, "Widget not found. Supported id formats: '3', '3:0', or '{\"index1\":3,\"stamp\":0}'. Tip: call inspect_tree(options='id') to discover valid IDs."@)
        } else {
            (-32000i64, text)
        },
        ToolCallView::AddOverlay { .. } => if err is NotFound {
            (-32001i64, "Widget not found for overlay. Supported id formats: '3', '3:0', or '{\"index1\":3,\"stamp\":0}'."@)
        } else {
            (-32000i64, "Failed to add overlay: "@ + text)
        },
        ToolCallView::RemoveOverlay { .. } => if err is NotFound {
            (-32001i64, "Overlay/widget not found. Supported id formats: '3', '3:0', or '{\"index1\":3,\"stamp\":0}'."@)
        } else {
            (-32000i64, "Failed to remove overlay: "@ + text)
        },
        ToolCallView::InjectEvents { .. } => (-32000i64, "Failed to inject events: "@ + text),
        _ => (-32000i64, text),
    }
}

/// The error answered when the service call of `call` fails with `err`.
pub fn tool_failure(call: &ToolCall, err: &ServiceError) -> (r: RpcError)
    ensures
        (r.code, r.message@) == tool_failure_of(call@, *err),
{
    let text = err.to_string();
    let not_found = match err {
        ServiceError::NotFound => true,
        _ => false,
    };
    match call {
        ToolCall::InspectWidget { .. } => if not_found {
            rpc_error(-32001i64, "Widget not found. Supported id formats: '3', '3:0', or '{\"index1\":3,\"stamp\":0}'. Tip: call inspect_tree(options='id') to discover valid IDs.")
        } else {
            RpcError { code: -32000, message: text }
        },
        ToolCall::AddOverlay { .. } => if not_found {
            rpc_error(-32001i64, "Widget not found for overlay. Supported id formats: '3', '3:0', or '{\"index1\":3,\"stamp\":0}'.")
        } else {
            rpc_error2(-32000i64, "Failed to add overlay: ", text.as_str())
        },
        ToolCall::RemoveOverlay { .. } => if not_found {
            rpc_error(-32001i64, "Overlay/widget not found. Supported id formats: '3', '3:0', or '{\"index1\":3,\"stamp\":0}'.")
        } else {
            rpc_error2(-32000i64, "Failed to remove overlay: ", text.as_str())
        },
        ToolCall::InjectEvents { .. } => rpc_error2(-32000i64, "Failed to inject events: ", text.as_str()),
        _ => RpcError { code: -32000, message: text },
    }
}

/// The text answered when `call` is done, for the calls whose answer is a
/// fixed sentence.
pub open spec fn tool_done_text_of(call: ToolCallView) -> Option<Seq<char>> {
    match call {
        ToolCallView::SetLogFilter { filter } => Some("Log filter set to: "@ + filter),
        ToolCallView::AddOverlay { id, .. } => Some("Overlay added to "@ + id),
        ToolCallView::RemoveOverlay { id, .. } => Some("Overlay removed from "@ + id),
        ToolCallView::ClearOverlays { .. } => Some("Overlays cleared"@),
        _ => None,
    }
}

/// The text answered when `call` is done, for the calls whose answer is a
/// fixed sentence.
pub fn tool_done_text(call: &ToolCall) -> (r: Option<String>)
    ensures
        opt_text(r) == tool_done_text_of(call@),
{
    match call {
        ToolCall::SetLogFilter { filter } => Some(concat_text("Log filter set to: ", filter.as_str())),
        ToolCall::AddOverlay { id, .. } => Some(concat_text("Overlay added to ", id.as_str())),
        ToolCall::RemoveOverlay { id, .. } => Some(concat_text("Overlay removed from ", id.as_str())),
        ToolCall::ClearOverlays { .. } => Some("Overlays cleared".to_owned()),
        _ => None,
    }
}

/// The error answered when no window is there to read overlays from.
pub fn no_active_window() -> (r: RpcError)
    ensures
        r.code == -32000,
        r.message@ == "No active window found"@,
{
    rpc_error(-32000i64, "No active window found")
}

/// The HTTP status line of a failed capture: code and reason phrase.
pub open spec fn capture_status_line(err: CaptureError) -> Seq<char> {
    match err {
        CaptureError::Conflict => "409 Conflict"@,
        CaptureError::NotFound => "404 Not Found"@,
        CaptureError::Timeout => "408 Request Timeout"@,
        CaptureError::Internal => "500 Internal Server Error"@,
    }
}

/// The HTTP status line of a failed capture.
fn capture_status_text(err: CaptureError) -> (r: &'static str)
    ensures
        r@ == capture_status_line(err),
{
    match err {
        CaptureError::Conflict => "409 Conflict",
        CaptureError::NotFound => "404 Not Found",
        CaptureError::Timeout => "408 Request Timeout",
        CaptureError::Internal => "500 Internal Server Error",
    }
}

/// What a start_recording call answers, given how starting the capture in
/// `capture_dir` went; a started recording sets `recording`.
pub open spec fn recording_started_of(started: Result<Seq<char>, CaptureError>) -> Result<Seq<char>, (i64, Seq<char>)> {
    match started {
        Ok(dir) => Ok("Recording started. Capture dir: "@ + dir),
        Err(CaptureError::Conflict) => Err((-32000i64, "Recording already active"@)),
        Err(e) => Err((-32000i64, "Failed to start recording: status "@ + capture_status_line(e))),
    }
}

/// The text of an answer, or its error as code and message.
pub open spec fn answer_view(r: Result<String, RpcError>) -> Result<Seq<char>, (i64, Seq<char>)> {
    match r {
        Ok(t) => Ok(t@),
        Err(e) => Err((e.code, e.message@)),
    }
}

/// What a start_recording call answers once the capture was started (with
/// its directory) or refused; a started recording sets `recording`, a
/// refused one leaves it.
pub fn recording_started(recording: &mut bool, started: Result<String, CaptureError>) -> (r: Result<String, RpcError>)
    ensures
        answer_view(r) == recording_started_of(match started {
            Ok(d) => Ok(d@),
            Err(e) => Err(e),
        }),
        *final(recording) == (started is Ok || *old(recording)),
{
    match started {
        Ok(dir) => {
            *recording = true;
            Ok(concat_text("Recording started. Capture dir: ", dir.as_str()))
        },
        Err(CaptureError::Conflict) => Err(rpc_error(-32000i64, "Recording already active")),
        Err(e) => Err(rpc_error2(-32000i64, "Failed to start recording: status ", capture_status_text(e))),
    }
}

/// What a stop_recording call answers, given how stopping the capture
/// went: its directory and manifest path, or why it failed.
pub open spec fn recording_stopped_of(stopped: Result<(Seq<char>, Seq<char>), CaptureError>) -> Result<Seq<char>, (i64, Seq<char>)> {
    match stopped {
        Ok((dir, manifest)) => Ok("Recording stopped.\nCapture: "@ + dir + "\nManifest: "@ + manifest),
        Err(CaptureError::NotFound) => Err((-32001i64, "No active recording session"@)),
        Err(e) => Err((-32000i64, "Failed to stop recording: status "@ + capture_status_line(e))),
    }
}

/// What a stop_recording call answers once the capture was stopped (with
/// its directory and manifest path) or refused; a stopped recording clears
/// `recording`, a refused one leaves it.
pub fn recording_stopped(recording: &mut bool, stopped: Result<(String, String), CaptureError>) -> (r: Result<
    String,
    RpcError,
>)
    ensures
        answer_view(r) == recording_stopped_of(match stopped {
            Ok((d, m)) => Ok((d@, m@)),
            Err(e) => Err(e),
        }),
        *final(recording) == (!(stopped is Ok) && *old(recording)),
{
    match stopped {
        Ok((dir, manifest)) => {
            *recording = false;
            let mut t = concat_text("Recording stopped.\nCapture: ", dir.as_str());
            t.append("\nManifest: ");
            t.append(manifest.as_str());
            Ok(t)
        },
        Err(CaptureError::NotFound) => Err(rpc_error(-32001i64, "No active recording session")),
        Err(e) => Err(rpc_error2(-32000i64, "Failed to stop recording: status ", capture_status_text(e))),
    }
}

/// What a capture_one_shot call answers, given how the capture went.
pub open spec fn one_shot_answer_of(saved: Result<(Seq<char>, Seq<char>), CaptureError>) -> Result<Seq<char>, (i64, Seq<char>)> {
    match saved {
        Ok((dir, manifest)) => Ok("Capture saved to "@ + dir + "\nManifest: "@ + manifest),
        Err(e) => Err((-32000i64, "Failed to capture one shot: status "@ + capture_status_line(e))),
    }
}

/// What a capture_one_shot call answers once the capture was saved (with
/// its directory and manifest path) or failed.
pub fn one_shot_answer(saved: Result<(String, String), CaptureError>) -> (r: Result<String, RpcError>)
    ensures
        answer_view(r) == one_shot_answer_of(match saved {
            Ok((d, m)) => Ok((d@, m@)),
            Err(e) => Err(e),
        }),
{
    match saved {
        Ok((dir, manifest)) => {
            let mut t = concat_text("Capture saved to ", dir.as_str());
            t.append("\nManifest: ");
            t.append(manifest.as_str());
            Ok(t)
        },
        Err(e) => Err(rpc_error2(-32000i64, "Failed to capture one shot: status ", capture_status_text(e))),
    }
}

/// The error answered when a screenshot could not be encoded as an image.
pub fn image_encoding_failed() -> (r: RpcError)
    ensures
        r.code == -32000,
        r.message@ == "Failed to encode image"@,
{
    rpc_error(-32000i64, "Failed to encode image")
}

} // verus!
