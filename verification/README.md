# unit-wasm

A verified library for writing WebAssembly modules for NGINX Unit: it reads
the request structure that Unit places in the shared memory, keeps a copy of
the request across calls, and builds the response data and response headers
in the shared memory for Unit to send.

- `src/` is verified with Verus. The context holds the shared memory and the
  request copy as byte buffers, with offsets where the interface keeps
  pointers. `bytes.rs` has the byte-level pieces (little-endian fields,
  NUL-terminated strings, UTF-8, decimal numbers), `ctx.rs` the context,
  `request.rs` the request getters and header lookup, `reqbuf.rs` the request
  copy, `response.rs` the response and its headers, `laws.rs` the properties
  that hold across operations, and `rusty.rs` gathers the functions under one
  path.
- `app/` holds what talks to the Unit host (sending, the memory size, the
  response status) or to files, and the helper macros.
- `tests/` runs the library on concrete request and response layouts.
