# quill_core

The core of the Quill engine, verified with Verus: routing of requests, validation of request
bodies, the shared state, JSON, and the decisions of the HTTP server.

- `src/` is the library. Its functions state what they do and are proved to do it, but for the
  few that call other crates, which are taken on trust (see below).
  - `text`, `pairs`, `float`, `tables`: text at the boundary, lists of named values, the order of
    binary64 numbers, tables of values by name or number.
  - `json`: JSON documents, read and written by `sonic_rs`.
  - `manifest`, `pattern`, `router`: the routes of an application, their patterns, and the
    `matchit` trees that find them.
  - `validator`: schemas, rules and messages, with the regular expressions of `regex`.
  - `dispatch`: routing and validation of a request in one step.
  - `state`: the store of documents and counters that handlers share.
  - `response`, `server`, `pending`, `metrics`: how a request is served, step by step.
- `tests/` runs the library.
- `app/` is the C interface and the HTTP server: pointers, sockets, threads, and the JSON forms of
  manifests and schemas.

What the library takes on trust are the contracts of the functions marked `external_body`. Each
of them says what it calls and what is claimed of it.

Tables are changed through `&mut`. To share one between threads, keep it behind a lock, as `app/`
does.
