# can_decoder

A J1939 / ISO 11783 CAN bus decoder: it reads raw frames (live from SocketCAN or from a
candump log), reassembles transport-protocol messages, decodes parameter groups into named
values, tracks the devices on the bus, filters the decoded messages and renders them as
console text, CSV or JSON.

The library under `src/` is written in Verus: each public function carries a contract
(`requires` / `ensures`) stated over mathematical models of its data, and Verus proves that
the code meets it. Properties that relate several operations are stated as public proof
functions (their names begin with `lemma_`).

## Layout

- `src/types.rs` — frames, assembled messages, decoded fields and messages.
- `src/tp_reassembler.rs` — BAM / RTS-CTS transport-protocol reassembly.
- `src/pgn_decoder.rs`, `src/pgn_decoders/` — reading components from payloads; the
  request, address-claim and task-controller decoders; `src/traits.rs` — the interface of
  stateful decoders.
- `src/device_manager.rs` — devices, their NAMEs and parameters, with expiry.
- `src/filters.rs`, `src/filter_engine.rs`, `src/filter_editor.rs`, `src/filter_state.rs` —
  filter rules and the filter-expression parser, lazy filtering of stored messages, the
  filter editor's state, and saved filters.
- `src/renderers.rs`, `src/columns.rs`, `src/formats.rs`, `src/text.rs`, `src/numparse.rs` —
  text output, column formatting, number parsing and printing.
- `src/sources.rs` — candump line parsing and source names.
- `src/scroll_manager.rs`, `src/app_state.rs`, `src/gui/` — list scrolling and selection,
  the message list's log and latest views, the filter panel and widgets.
- `src/proprietary/` — proprietary DDI dictionaries.
- `app/` — the command-line program: argument parsing, I/O, the asynchronous pipeline and
  the floating-point parts of decoding and rendering.
- `tests/` — tests of the library.
