//! Requests that the debug bridge forwards to the application: which
//! endpoint a request names, and what is answered for the outcomes that do
//! not depend on the running windows.
use vstd::prelude::*;

use crate::log_ring::{queried_from_seq, queried_lines, LogRing};
use crate::query::{
    logs_query_after, parse_logs_query, parse_query_options, query_options_after, query_pairs, InspectOptions,
    LogsQuery,
};
use crate::service::{service_error_text, ServiceError};
use crate::text::{
    before_char, before_char_chars, chars_eq_str, chars_of, is_prefix, starts_with, string_from_chars,
    strip_leading, strip_leading_chars,
};

verus! {

/// An endpoint of the bridge, with what its path carries.
#[derive(Debug)]
pub enum BridgeRoute {
    Status,
    Windows,
    InspectTree(InspectOptions),
    InspectWidget { id: String, options: InspectOptions },
    Screenshot,
    AddOverlay,
    RemoveOverlay(String),
    ClearOverlays,
    GetOverlays,
    InjectEvents,
    StartMacro,
    StopMacro,
    CaptureStart,
    CaptureStop,
    CaptureOneShot,
    Logs(LogsQuery),
    SetLogFilter,
    Unknown,
}

/// An endpoint, its texts as character sequences.
pub enum BridgeRouteView {
    Status,
    Windows,
    InspectTree(InspectOptions),
    InspectWidget { id: Seq<char>, options: InspectOptions },
    Screenshot,
    AddOverlay,
    RemoveOverlay(Seq<char>),
    ClearOverlays,
    GetOverlays,
    InjectEvents,
    StartMacro,
    StopMacro,
    CaptureStart,
    CaptureStop,
    CaptureOneShot,
    Logs(LogsQuery),
    SetLogFilter,
    Unknown,
}

impl View for BridgeRoute {
    type V = BridgeRouteView;

    open spec fn view(&self) -> BridgeRouteView {
        match self {
            BridgeRoute::Status => BridgeRouteView::Status,
            BridgeRoute::Windows => BridgeRouteView::Windows,
            BridgeRoute::InspectTree(o) => BridgeRouteView::InspectTree(*o),
            BridgeRoute::InspectWidget { id, options } => BridgeRouteView::InspectWidget { id: id@, options: *options },
            BridgeRoute::Screenshot => BridgeRouteView::Screenshot,
            BridgeRoute::AddOverlay => BridgeRouteView::AddOverlay,
            BridgeRoute::RemoveOverlay(id) => BridgeRouteView::RemoveOverlay(id@),
            BridgeRoute::ClearOverlays => BridgeRouteView::ClearOverlays,
            BridgeRoute::GetOverlays => BridgeRouteView::GetOverlays,
            BridgeRoute::InjectEvents => BridgeRouteView::InjectEvents,
            BridgeRoute::StartMacro => BridgeRouteView::StartMacro,
            BridgeRoute::StopMacro => BridgeRouteView::StopMacro,
            BridgeRoute::CaptureStart => BridgeRouteView::CaptureStart,
            BridgeRoute::CaptureStop => BridgeRouteView::CaptureStop,
            BridgeRoute::CaptureOneShot => BridgeRouteView::CaptureOneShot,
            BridgeRoute::Logs(q) => BridgeRouteView::Logs(*q),
            BridgeRoute::SetLogFilter => BridgeRouteView::SetLogFilter,
            BridgeRoute::Unknown => BridgeRouteView::Unknown,
        }
    }
}

/// The options that a request path's query names.
pub open spec fn path_options(p: Seq<char>) -> InspectOptions {
    query_options_after(query_pairs(p), query_pairs(p).len() as int)
}

/// The endpoint that `method` and `path` name. The path is read without
/// its leading slashes; the first rule that matches decides.
pub open spec fn bridge_route(method: Seq<char>, path: Seq<char>) -> BridgeRouteView {
    let p = strip_leading(path, '/');
    let get = method == "GET"@;
    let post = method == "POST"@;
    let delete = method == "DELETE"@;
    if get && p == "status"@ {
        BridgeRouteView::Status
    } else if get && p == "windows"@ {
        BridgeRouteView::Windows
    } else if get && is_prefix("inspect/tree"@, p) {
        BridgeRouteView::InspectTree(path_options(p))
    } else if get && is_prefix("inspect/"@, p) {
        BridgeRouteView::InspectWidget {
            id: before_char(p.skip("inspect/"@.len() as int), '?'),
            options: path_options(p),
        }
    } else if get && p == "screenshot"@ {
        BridgeRouteView::Screenshot
    } else if post && p == "overlay"@ {
        BridgeRouteView::AddOverlay
    } else if delete && is_prefix("overlay/"@, p) {
        BridgeRouteView::RemoveOverlay(p.skip("overlay/"@.len() as int))
    } else if delete && p == "overlays"@ {
        BridgeRouteView::ClearOverlays
    } else if get && p == "overlays"@ {
        BridgeRouteView::GetOverlays
    } else if post && p == "events/inject"@ {
        BridgeRouteView::InjectEvents
    } else if post && p == "events/macro/start"@ {
        BridgeRouteView::StartMacro
    } else if post && p == "events/macro/stop"@ {
        BridgeRouteView::StopMacro
    } else if post && p == "capture/start"@ {
        BridgeRouteView::CaptureStart
    } else if post && p == "capture/stop"@ {
        BridgeRouteView::CaptureStop
    } else if post && p == "capture/one_shot"@ {
        BridgeRouteView::CaptureOneShot
    } else if get && (p == "logs"@ || is_prefix("logs?"@, p)) {
        BridgeRouteView::Logs(logs_query_after(query_pairs(p), query_pairs(p).len() as int))
    } else if post && p == "logs/filter"@ {
        BridgeRouteView::SetLogFilter
    } else {
        BridgeRouteView::Unknown
    }
}

/// The rest of `p` after `prefix`.
fn skip_prefix(p: &Vec<char>, prefix: &Vec<char>) -> (r: Vec<char>)
    requires
        prefix@.len() <= p@.len(),
    ensures
        r@ == p@.skip(prefix@.len() as int),
{
    let mut out: Vec<char> = Vec::new();
    let mut k: usize = prefix.len();
    while k < p.len()
        invariant
            prefix@.len() <= k <= p@.len(),
            out@ == p@.subrange(prefix@.len() as int, k as int),
        decreases p.len() - k,
    {
        out.push(p[k]);
        assert(p@.subrange(prefix@.len() as int, k + 1) == p@.subrange(prefix@.len() as int, k as int).push(p@[k as int]));
        k = k + 1;
    }
    assert(out@ == p@.skip(prefix@.len() as int));
    out
}

/// The endpoint that a bridge request names.
pub fn route_bridge_request(method: &str, path: &str) -> (r: BridgeRoute)
    ensures
        r@ == bridge_route(method@, path@),
{
    let m = chars_of(method);
    let p = strip_leading_chars(&chars_of(path), '/');
    let ps = string_from_chars(&p);
    let get = chars_eq_str(&m, "GET");
    let post = chars_eq_str(&m, "POST");
    let delete = chars_eq_str(&m, "DELETE");
    let inspect_tree = chars_of("inspect/tree");
    let inspect = chars_of("inspect/");
    let overlay = chars_of("overlay/");
    let logs_q = chars_of("logs?");
    if get && chars_eq_str(&p, "status") {
        BridgeRoute::Status
    } else if get && chars_eq_str(&p, "windows") {
        BridgeRoute::Windows
    } else if get && starts_with(&p, &inspect_tree) {
        BridgeRoute::InspectTree(parse_query_options(ps.as_str()))
    } else if get && starts_with(&p, &inspect) {
        let rest = skip_prefix(&p, &inspect);
        let id = before_char_chars(&rest, '?');
        BridgeRoute::InspectWidget { id: string_from_chars(&id), options: parse_query_options(ps.as_str()) }
    } else if get && chars_eq_str(&p, "screenshot") {
        BridgeRoute::Screenshot
    } else if post && chars_eq_str(&p, "overlay") {
        BridgeRoute::AddOverlay
    } else if delete && starts_with(&p, &overlay) {
        let id = skip_prefix(&p, &overlay);
        BridgeRoute::RemoveOverlay(string_from_chars(&id))
    } else if delete && chars_eq_str(&p, "overlays") {
        BridgeRoute::ClearOverlays
    } else if get && chars_eq_str(&p, "overlays") {
        BridgeRoute::GetOverlays
    } else if post && chars_eq_str(&p, "events/inject") {
        BridgeRoute::InjectEvents
    } else if post && chars_eq_str(&p, "events/macro/start") {
        BridgeRoute::StartMacro
    } else if post && chars_eq_str(&p, "events/macro/stop") {
        BridgeRoute::StopMacro
    } else if post && chars_eq_str(&p, "capture/start") {
        BridgeRoute::CaptureStart
    } else if post && chars_eq_str(&p, "capture/stop") {
        BridgeRoute::CaptureStop
    } else if post && chars_eq_str(&p, "capture/one_shot") {
        BridgeRoute::CaptureOneShot
    } else if get && (chars_eq_str(&p, "logs") || starts_with(&p, &logs_q)) {
        BridgeRoute::Logs(parse_logs_query(ps.as_str()))
    } else if post && chars_eq_str(&p, "logs/filter") {
        BridgeRoute::SetLogFilter
    } else {
        BridgeRoute::Unknown
    }
}

/// The error message of a request that names no endpoint.
pub open spec fn unknown_endpoint_text(method: Seq<char>, path: Seq<char>) -> Seq<char> {
    "Unknown endpoint: "@ + method + " "@ + strip_leading(path, '/')
}

/// The error message of a request that names no endpoint.
pub fn unknown_endpoint(method: &str, path: &str) -> (r: String)
    ensures
        r@ == unknown_endpoint_text(method@, path@),
{
    let p = strip_leading_chars(&chars_of(path), '/');
    let mut out = String::new();
    out.append("Unknown endpoint: ");
    out.append(method);
    out.append(" ");
    let ps = string_from_chars(&p);
    out.append(ps.as_str());
    out
}

/// Why a capture request failed.
#[derive(Debug, Clone, Copy, PartialEq, Eq, Structural)]
pub enum CaptureError {
    Conflict,
    NotFound,
    Timeout,
    Internal,
}

/// The status and error message answered for a failed capture request.
pub fn capture_error(err: CaptureError) -> (r: (u16, String))
    ensures
        match err {
            CaptureError::Conflict => r.0 == 409 && r.1@ == "Capture already in progress"@,
            CaptureError::Timeout => r.0 == 408 && r.1@ == "Capture timeout"@,
            CaptureError::NotFound => r.0 == 404 && r.1@ == "No active capture found"@,
            CaptureError::Internal => r.0 == 500 && r.1@ == "Failed to capture"@,
        },
{
    match err {
        CaptureError::Conflict => (409, "Capture already in progress".to_owned()),
        CaptureError::Timeout => (408, "Capture timeout".to_owned()),
        CaptureError::NotFound => (404, "No active capture found".to_owned()),
        CaptureError::Internal => (500, "Failed to capture".to_owned()),
    }
}

/// The routes whose service call can fail with a service error.
pub open spec fn fails_with_service_error(route: BridgeRouteView) -> bool {
    ||| route is Windows
    ||| route is InspectTree
    ||| route is InspectWidget
    ||| route is Screenshot
    ||| route is AddOverlay
    ||| route is RemoveOverlay
    ||| route is InjectEvents
}

/// The status and error message answered when the service call of `route`
/// fails with `err`.
pub open spec fn service_failure(route: BridgeRouteView, err: ServiceError) -> (u16, Seq<char>) {
    match route {
        BridgeRouteView::Windows => (500, "Failed to get windows"@),
        BridgeRouteView::InspectTree(_) => (500, "Failed to inspect tree"@),
        BridgeRouteView::InspectWidget { .. } => if err is NotFound {
            (404, "Widget not found"@)
        } else {
            (500, "Failed to inspect widget"@)
        },
        BridgeRouteView::Screenshot => (500, "Failed to capture screenshot"@),
        BridgeRouteView::AddOverlay => (500, "Failed to add overlay"@),
        BridgeRouteView::RemoveOverlay(_) => (500, "Failed to remove overlay"@),
        _ => (400, service_error_text(err)),
    }
}

/// The status and error message answered when the service call of `route`
/// fails with `err`.
pub fn bridge_failure(route: &BridgeRoute, err: &ServiceError) -> (r: (u16, String))
    requires
        fails_with_service_error(route@),
    ensures
        (r.0, r.1@) == service_failure(route@, *err),
{
    match route {
        BridgeRoute::Windows => (500, "Failed to get windows".to_owned()),
        BridgeRoute::InspectTree(_) => (500, "Failed to inspect tree".to_owned()),
        BridgeRoute::InspectWidget { .. } => match err {
            ServiceError::NotFound => (404, "Widget not found".to_owned()),
            _ => (500, "Failed to inspect widget".to_owned()),
        },
        BridgeRoute::Screenshot => (500, "Failed to capture screenshot".to_owned()),
        BridgeRoute::AddOverlay => (500, "Failed to add overlay".to_owned()),
        BridgeRoute::RemoveOverlay(_) => (500, "Failed to remove overlay".to_owned()),
        _ => (400, err.to_string()),
    }
}

/// The widget and color of an add-overlay request: the widget named by
/// `id` (empty if none), the color named by `color`, half-transparent red
/// by default.
pub fn overlay_request(id: Option<&str>, color: Option<&str>) -> (r: (String, String))
    ensures
        r.0@ == match id { Some(s) => s@, None => Seq::<char>::empty() },
        r.1@ == match color { Some(s) => s@, None => "#FF000080"@ },
{
    let i = match id {
        Some(s) => s.to_owned(),
        None => String::new(),
    };
    let c = match color {
        Some(s) => s.to_owned(),
        None => "#FF000080".to_owned(),
    };
    (i, c)
}

/// What a logs request is answered: the lines, each followed by a line
/// break, the newest timestamp, the number of buffered entries and the
/// largest sequence number answered.
#[derive(Debug)]
pub struct LogsReply {
    pub data: String,
    pub max_ts: Option<u64>,
    pub ring_len: usize,
    pub max_seq: Option<u64>,
}

/// The lines, each followed by a line break.
pub open spec fn lines_block(lines: Seq<Seq<char>>) -> Seq<char>
    decreases lines.len(),
{
    if lines.len() == 0 {
        Seq::empty()
    } else {
        lines_block(lines.drop_last()) + lines.last() + seq!['\n']
    }
}

/// The largest sequence number of a list of numbered lines.
pub open spec fn max_seq_of(s: Seq<(u64, Seq<char>)>) -> Option<u64>
    decreases s.len(),
{
    if s.len() == 0 {
        None
    } else {
        match max_seq_of(s.drop_last()) {
            Some(m) => Some(if m >= s.last().0 { m } else { s.last().0 }),
            None => Some(s.last().0),
        }
    }
}

/// Appends each line and a line break to `out`.
fn append_lines(out: &mut String, lines: &Vec<String>)
    ensures
        final(out)@ == old(out)@ + lines_block(lines@.map_values(|l: String| l@)),
{
    let ghost start = out@;
    let ghost all = lines@.map_values(|l: String| l@);
    let mut i: usize = 0;
    while i < lines.len()
        invariant
            i <= lines@.len(),
            all == lines@.map_values(|l: String| l@),
            out@ == start + lines_block(all.take(i as int)),
        decreases lines.len() - i,
    {
        assert(all.take(i + 1).drop_last() == all.take(i as int));
        assert(all.take(i + 1).last() == lines@[i as int]@);
        out.append(lines[i].as_str());
        out.append("\n");
        proof {
            reveal_strlit("\n");
        }
        assert(out@ == start + lines_block(all.take(i + 1)));
        i = i + 1;
    }
    assert(all.take(lines@.len() as int) == all);
}

/// The answer to a logs request with query `q`: the lines from sequence
/// number `from_seq` when it is given, else the lines in the time window;
/// at most `limit` lines either way.
pub fn logs_reply(ring: &LogRing, q: LogsQuery) -> (r: LogsReply)
    ensures
        r.max_ts == (if ring.view_items().len() > 0 { Some(ring.view_items().last().ts) } else { None }),
        r.ring_len == ring.view_items().len(),
        match q.3 {
            Some(seq) => {
                let found = queried_from_seq(ring.view_items(), seq, q.2);
                &&& r.data@ == lines_block(found.map_values(|p: (u64, Seq<char>)| p.1))
                &&& r.max_seq == max_seq_of(found)
            },
            None => {
                &&& r.data@ == lines_block(queried_lines(ring.view_items(), q.0, q.1, q.2))
                &&& r.max_seq == (if ring.view_items().len() > 0 { Some(ring.view_items().last().seq) } else { None })
            },
        },
{
    let (since, until, limit, from_seq) = q;
    let mut data = String::new();
    match from_seq {
        Some(seq) => {
            let found = ring.query_lines_from_seq(seq, limit);
            let ghost fv = found@.map_values(|p: (u64, String)| (p.0, p.1@));
            let mut lines: Vec<String> = Vec::new();
            let mut max_seq: Option<u64> = None;
            let mut i: usize = 0;
            while i < found.len()
                invariant
                    i <= found@.len(),
                    fv == found@.map_values(|p: (u64, String)| (p.0, p.1@)),
                    lines@.map_values(|l: String| l@) == fv.take(i as int).map_values(|p: (u64, Seq<char>)| p.1),
                    max_seq == max_seq_of(fv.take(i as int)),
                decreases found.len() - i,
            {
                let (s, line) = &found[i];
                assert(fv.len() == found@.len());
                assert(lines@.map_values(|l: String| l@).len() == i);
                assert(lines@.len() == i);
                assert(fv.take(i + 1).drop_last() == fv.take(i as int));
                assert(fv.take(i + 1).last() == (*s, line@));
                let ghost before = lines@;
                let copy = line.as_str().to_owned();
                assert(copy@ == fv[i as int].1);
                lines.push(copy);
                assert(lines@ == before.push(copy));
                let ghost lv = lines@.map_values(|l: String| l@);
                let ghost tv = fv.take(i + 1).map_values(|p: (u64, Seq<char>)| p.1);
                let ghost pv = fv.take(i as int).map_values(|p: (u64, Seq<char>)| p.1);
                let ghost bv = before.map_values(|l: String| l@);
                assert(bv == pv);
                assert forall|k: int| 0 <= k < i + 1 implies #[trigger] lv[k] == tv[k] by {
                    assert(lv[k] == lines@[k]@);
                    assert(tv[k] == fv[k].1);
                    if k < i {
                        assert(lines@[k] == before[k]);
                        assert(bv[k] == before[k]@);
                        assert(pv[k] == fv[k].1);
                    }
                }
                assert(lv =~= tv);
                max_seq = match max_seq {
                    Some(m) => Some(if m >= *s { m } else { *s }),
                    None => Some(*s),
                };
                i = i + 1;
            }
            assert(fv.take(found@.len() as int) == fv);
            append_lines(&mut data, &lines);
            assert(data@ =~= lines_block(fv.map_values(|p: (u64, Seq<char>)| p.1)));
            LogsReply { data, max_ts: ring.max_ts(), ring_len: ring.len(), max_seq }
        },
        None => {
            let lines = ring.query_lines(since, until, limit);
            append_lines(&mut data, &lines);
            assert(data@ =~= lines_block(lines@.map_values(|l: String| l@)));
            LogsReply { data, max_ts: ring.max_ts(), ring_len: ring.len(), max_seq: ring.max_seq() }
        },
    }
}

/// Leading slashes of a request path do not matter: a path names the same
/// endpoint with or without them.
pub proof fn law_leading_slashes_ignored(method: Seq<char>, path: Seq<char>)
    ensures
        bridge_route(method, seq!['/'] + path) == bridge_route(method, path),
        unknown_endpoint_text(method, seq!['/'] + path) == unknown_endpoint_text(method, path),
{
    let p = seq!['/'] + path;
    assert(p.len() > 0 && p[0] == '/');
    assert(p.drop_first() =~= path);
    assert(strip_leading(p, '/') == strip_leading(path, '/'));
}

} // verus!
