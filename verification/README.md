# relm4-store

Stores of records and store views: a store view shows a window (a page) of the records of a
store and follows the store as records are added, removed, updated or moved.

## Layout

- `src/` is the library, verified with Verus:
  - `math.rs`: ranges and points; `position.rs`, `store_size.rs`, `pagination.rs`;
  - `window/`: the window behaviors (`KeepOnTop`, `KeepOnBottom`, `PositionTrackingWindow`,
    `ValueTrackingWindow`) and the transitions they choose;
  - `data_container.rs`: the records of a view, in view order, each once, at most a page;
  - `store_view.rs`: the view itself, message handling as a fold of `step` over the pending
    messages, paging, and the widget work of a redraw (`redraw.rs`);
  - `view_sync.rs` and `window_laws.rs`: laws about views and window behaviors.
- `tests/`: tests run against the compiled library, with a store kept in a `Vec`.
- `app/`: the gtk side (glib channels between stores and views, relm4 factory widgets); it
  builds with relm4 on the GTK 4 system libraries.
