use vstd::prelude::*;

pub mod build_ctx;
pub mod bridge;
pub mod capture;
pub mod change_set;
pub mod cow_rc;
pub mod dispatcher;
pub mod event_loop;
pub mod events;
pub mod focus;
pub mod focus_arena;
pub mod inject;
pub mod key_mapping;
pub mod layout;
pub mod lifecycle;
pub mod log_ring;
pub mod macro_record;
pub mod macro_session;
pub mod mcp;
pub mod overlays;
pub mod query;
pub mod resolve;
pub mod ranking;
pub mod recording;
pub mod scheduler;
pub mod service;
pub mod taps;
pub mod text;
pub mod widget_tree;
pub mod window;

verus! {

} // verus!
