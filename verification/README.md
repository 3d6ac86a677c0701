# trace-tui

An explorer for EVM call traces: a call tree in which every call lists its
logs, child calls and execution steps in the order they happened. The
library keeps a cursor on that tree, moves it the way the keys ask, renders
the tree as styled lines (collapsed calls show only their header), and lays
out each frame of the terminal view. It also converts parity-style
`trace_transaction` frames into the call tree.

Every function in `src/` is verified with Verus against its contract, except
three small trusted wrappers whose contracts are assumed: `text::push_char`
(`String::push`), `values::address_to_checksum` (`Address::to_checksum` of
`alloy-primitives`) and `values::u256_to_decimal` (the decimal `Display` of
its `U256`).

- `src/arena.rs` — the call tree and its well-formedness.
- `src/navigation.rs` — the cursor and the moves (down, up, step over,
  step into, step out, collapse).
- `src/display.rs` — the order of the lines the cursor walks, with the laws
  that moving down and up walk exactly that order.
- `src/writer.rs`, `src/render.rs` — the text of each line and of the whole
  tree, and the law that its selectable lines are the ones the cursor walks.
- `src/bindings.rs`, `src/tui.rs` — key bindings, the help text, and the
  state of the terminal view.
- `src/parity.rs`, `src/convert.rs` — parity frames and their conversion.
- `src/backend.rs` — the `cast run` command line for a transaction.
- `app/` — the `trace-cli` program: reading JSON, the terminal loop and
  drawing with `ratatui`.
