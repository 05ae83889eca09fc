# RLM sandbox

The local executor of a coding assistant. It runs a project's tests, verifies proposed changes in a
throwaway shadow of the project, lands the changes that were approved, and hosts a coding agent. A
browser drives it over a bridge on `127.0.0.1:1421`.

- `src/` is the library, written in Verus: the decisions that the executor takes, each with its
  contract and its proof. The laws that hold across functions are the public proof functions whose
  names begin with `law_`.
- `tests/` runs the library, with the outside crates that it calls.
- `app/` is the program around it: processes, files, sockets and the desktop window. It acts on
  what the library decides, and runs the TypeScript service from a script beside the executable.

What the library takes on trust of `std`, `serde_json`, `getrandom` and `tiny_http` stands in
`json.rs`, `random.rs`, `http.rs`, `bytes.rs`, `paths.rs` and `text.rs`, each with a note of what
is claimed.
