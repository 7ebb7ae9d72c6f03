# rust_remover

A small chat bot for personal use, written in Rust and verified with Verus.

- `src/` is the library: form encoding of request parameters, MD5
  digests, the in-place quick sort, duration parsing and formatting, the
  guild statistics and role table, message purging, the command counter
  and the chat-service session. Its functions are verified, except the
  small wrappers marked `external_body`, whose contracts are trusted and
  which each make one call into the standard library or an outside crate.
- `app/` is the program around it: logging in to the chat service, reading
  the environment, HTTP and JSON, and the timing figures that need floating
  point.
- `tests/` runs the library on concrete values.
