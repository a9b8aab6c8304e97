# ribir_core

The core logic of a GUI framework's window runtime, written in Verus: every
function in `src/` carries a contract. Verus proves each of them, except
those of the few wrappers around outside calls (`focus_arena`'s arena
wrappers, `text::push_char`, `cow_rc`'s `Arc::make_mut`), whose contracts it
takes as given.

- `widget_tree`, `layout`: the arena of widgets (parents, ordered
  children, disposal, layout order, ancestors and common ancestors), and
  which widgets to lay out again after some changed.
- `focus`, `focus_arena`: the focus manager. Its focus tree lives in an
  `indextree` arena, reached through a few trusted wrappers whose contracts
  describe the arena as a map of slots.
- `dispatcher`, `events`, `lifecycle`, `window`, `build_ctx`: input
  dispatch (mouse buttons, enter/leave, taps, pointer grabs, keyboard and
  text), event routing through capture and bubble phases, the events a
  window queues; `taps` counts multi-taps.
- `scheduler`, `event_loop`, `change_set`: the redraw scheduler's state
  machine, the event loop's decisions for each message, and batched
  data-change notification.
- `key_mapping`, `inject`, `recording`, `macro_record`, `macro_session`:
  key names and codes, injected input, and recording input into a
  replayable script.
- `capture`: capture sessions (one at a time, the frames they keep, the
  bundle of log lines and frames they hand back).
- `query`, `bridge`, `mcp`, `resolve`, `service`, `overlays`, `log_ring`:
  the debug protocols' decisions (routes, tool calls, error answers), widget
  lookup by id text, debug overlays and the log buffer.
- `text`, `ranking`: character-level helpers and the closest-name ranking.
- `cow_rc`: a copy-on-write shared value.

`app/` holds what Verus does not see: the clock, the environment, the port
registry files, the capture directories, the process-wide macro recorder,
the loop that runs change notifications, and the JSON of the debug
protocols. `tests/` runs the library
on concrete values.
