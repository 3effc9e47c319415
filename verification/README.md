# lib — the verified core of an embedded GUI engine

The widget tree, input processing, focus, scrolling, layout marks, screen loads and the
arithmetic behind redraws of a retained-mode GUI engine in the style of LVGL, written in
Verus: every function carries a `requires` / `ensures` contract that Verus proves.

## Layout

- `src/` — the library, one module per concern:
  - `tree` — the generational node arena with parent/child/sibling links; create, move,
    swap, delete (depth-first post-order), pre-order walks, dumps and an invariant checker, all proved against
    a model of sibling lists and ancestor chains. Stale handles never resolve. `removal`
    orders the deletion of a node from the engine around it.
  - `layout`, `flag_change`, `ext_draw`, `scrollbar`, `refresh`, `metrics` — layout marks,
    the consequences of flag changes, extra draw sizes, scrollbar geometry, dirty-area
    rounding and chunking, DPI scaling and opacity arithmetic.
  - `input`, `pointer`, `scroll`, `scroll_drag`, `throw`, `gridnav`, `group`, `groups` —
    keypad, encoder and pointer processors as plans of steps, click counting, long
    presses, the scroll of a drag and the throw after a release (a step function), elastic
    scrolling, scrolling into view, grid navigation and its focus handling, focus groups.
  - `event`, `handlers`, `obj`, `names` — event codes and their classes, user handler
    lists and the dispatch decisions, the base object's reactions, flag and state names.
  - `screen_anim`, `transition`, `style_list`, `config`, `stats`, `wake` — screen load
    animations, style transitions, prioritized style entries, configuration checks,
    frame statistics and wake-up deadlines.
- `tests/` — scenario tests of the library.
- `app/` — plain Rust around the library: `Display` / `Error` for its identifiers and
  errors, and the loops that carry out the plans and steps the library computes (input
  reads, event dispatch, throws, screen loads, grid navigation) against a host that owns
  drivers, events and callbacks.

The laws that relate several operations (a move lands where asked, swapping twice restores
the order, a deleted handle stays dead, stepping the focus back returns it, removing a
handler undoes adding it, …) are public proof functions next to the operations they
speak of.
