//! What the debug service answers for the replies of the runtime's
//! commands. Sending a command and awaiting its reply happen outside; the
//! reply comes in here.
use vstd::prelude::*;

use crate::overlays::{get_overlays, lists_overlays, overlay_pairs, overlays_of, OverlayStore};
use crate::widget_tree::WidgetId;

verus! {

/// Why a service operation failed.
#[derive(Debug)]
pub enum ServiceError {
    /// The operation timed out.
    Timeout,
    /// The requested resource was not found.
    NotFound,
    /// Internal error occurred.
    Internal(String),
}

/// How a service error reads.
pub open spec fn service_error_text(e: ServiceError) -> Seq<char> {
    match e {
        ServiceError::Timeout => "Operation timed out"@,
        ServiceError::NotFound => "Resource not found"@,
        ServiceError::Internal(msg) => "Internal error: "@ + msg@,
    }
}

impl ServiceError {
    /// How the error reads.
    pub fn to_string(&self) -> (r: String)
        ensures
            r@ == service_error_text(*self),
    {
        match self {
            ServiceError::Timeout => "Operation timed out".to_owned(),
            ServiceError::NotFound => "Resource not found".to_owned(),
            ServiceError::Internal(msg) => {
                let mut out = String::new();
                out.append("Internal error: ");
                out.append(msg.as_str());
                out
            },
        }
    }
}

/// The error of a command that could not be sent to the runtime.
pub fn send_failed() -> (r: ServiceError)
    ensures
        r matches ServiceError::Internal(m) && m@ == "Failed to send command"@,
{
    ServiceError::Internal("Failed to send command".to_owned())
}

/// The answer to an overlay command (add or remove) from the runtime's
/// reply: done when the widget was found, not found when it was not, an
/// internal error when no reply came.
pub fn overlay_reply(reply: Option<bool>) -> (r: Result<(), ServiceError>)
    ensures
        reply == Some(true) ==> r is Ok,
        reply == Some(false) ==> r matches Err(ServiceError::NotFound),
        reply is None ==> (r matches Err(ServiceError::Internal(m)) && m@ == "Failed to receive response"@),
{
    match reply {
        Some(true) => Ok(()),
        Some(false) => Err(ServiceError::NotFound),
        None => Err(ServiceError::Internal("Failed to receive response".to_owned())),
    }
}

/// The answer to an inject-events command from the runtime's reply: its
/// result, the runtime's error message, or an internal error when no reply
/// came.
pub fn inject_reply<T>(reply: Option<Result<T, String>>) -> (r: Result<T, ServiceError>)
    ensures
        reply matches Some(Ok(v)) ==> (r matches Ok(x) && x == v),
        reply matches Some(Err(msg)) ==> (r matches Err(ServiceError::Internal(m)) && m == msg),
        reply is None ==> (r matches Err(ServiceError::Internal(m)) && m@ == "Failed to receive response"@),
{
    match reply {
        Some(Ok(result)) => Ok(result),
        Some(Err(msg)) => Err(ServiceError::Internal(msg)),
        None => Err(ServiceError::Internal("Failed to receive response".to_owned())),
    }
}

/// Injecting no event is refused before any command is sent.
pub fn check_inject_events(count: usize) -> (r: Result<(), ServiceError>)
    ensures
        count == 0 ==> (r matches Err(ServiceError::Internal(m)) && m@ == "events must not be empty"@),
        count > 0 ==> r is Ok,
{
    if count == 0 {
        return Err(ServiceError::Internal("events must not be empty".to_owned()));
    }
    Ok(())
}

/// The overlays of window `window_id`, as the service reports them.
pub fn get_overlays_svc(store: &OverlayStore, window_id: u64) -> (r: Vec<(WidgetId, String)>)
    ensures
        forall|i: int, j: int| 0 <= i < r@.len() && 0 <= j < r@.len() && i != j ==> r@[i].0 != r@[j].0,
        forall|k: usize| overlays_of(store.view(), window_id).contains_key(k) <==> exists|i: int| 0 <= i < r@.len() && (#[trigger] r@[i]).0.0 == k,
        forall|i: int| 0 <= i < r@.len() ==> overlays_of(store.view(), window_id).contains_key((#[trigger] r@[i]).0.0)
            && overlays_of(store.view(), window_id)[r@[i].0.0] == r@[i].1@,
        lists_overlays(overlay_pairs(r@), overlays_of(store.view(), window_id)),
{
    get_overlays(store, window_id)
}

} // verus!
