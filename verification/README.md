# rustfox

The core of RustFox, an API client, with its behaviour stated as Verus
contracts and proved.

- `src/` is the verified library: request preparation (headers, query,
  authentication, body encoding), response helpers, the script state behind
  the `pm.*` API, the WebSocket client's policy (URL check, back-off,
  heartbeat, reconnect decisions, the send queue, and the stored form a
  message store would keep), the OpenAPI import plan, the OAuth2 token cache,
  update selection and version comparison, editor helpers, JSON highlighting,
  log tails and the feedback report. Calls into `base64`, `url`,
  `serde_urlencoded` and `serde_json` sit behind small trusted wrappers in
  `src/codec.rs`, each with the contract its documentation gives.
- `app/` is plain Rust around it: sending requests with `reqwest`, running
  scripts in QuickJS (`rquickjs`), the WebSocket connection
  (`tokio-tungstenite`; no message store is wired in, so a full send queue
  refuses the message), the process-wide token cache, update downloads and
  log files.
- `tests/` exercises the library on concrete values.
