# stark

Keeps a public tunnel to a local service open and its address registered in
a remote configuration document.

- `src/` is the verified library (Verus):
  - `text` — character sequences, fields between separators, substring
    search and removal, with the laws that splitting and joining undo each
    other.
  - `google::authentication` — the service account's signed token (RS256
    JWT): JSON of header and claims, URL-safe base64, the SHA-256 digest and
    the RSA signature.
  - `google::remote_config` — the configuration document as read, the text
    sent back, endpoints and response statuses.
  - `hospital` — the watch over the registered endpoint (`observe_step`),
    health of a probe (`hospital::doctor`), and writing a new tunnel address
    into the configuration text (`hospital::surgeon::insert_heart`).
  - `retry` — the decisions of the polling and retrying loops, with laws on
    how many checks and attempts they make.
  - `doctor`, `surgeon` — health by status code, and the first tunnel a
    local agent reports.
- `app/` is the program around it: HTTP requests, the tunnel session, timers,
  reading the credential file, and the loops that act on the library's
  decisions.
- `tests/` runs the library on concrete values.
