# fm_tester

The verified core of FM Tester, a desktop workbench for HTTP APIs:
collections of requests, environments and variables, request scripts,
orchestrations, load tests, chat with an assistant, and backups of
workspaces to a git repository.

The library in `src/` is written in Verus. Each public function states in
its `ensures` what it returns or changes, and Verus proves the code against
it. Calls into outside crates (AES-GCM, base64, MD5, SHA-256, HMAC, URL
parsing and coding, XML reading, JSON and JSON Schema, cron patterns,
random numbers, the clock) go through a small set of trusted wrappers whose contracts say what each crate
documents; what a crate computes that takes pages to state is named, not
restated.

Layout:

- `src/text.rs`, `src/models.rs`: text helpers and the shared records.
- `src/collection_tree.rs`, `src/collection_store.rs`: the collection tree,
  its search and removal laws, and its assembly from stored rows.
- `src/read_back.rs`: the law that a tree written as rows and read back is
  the tree it was.
- `src/variables.rs`, `src/workspace_data.rs`: `{{name}}` references and
  their substitution.
- `src/http.rs`, `src/http_client.rs`, `src/request_body.rs`, `src/stress.rs`:
  cookies, targets, redirects, bodies and the requests of load tests.
- `src/script_vars.rs`, `src/script_session.rs`, `src/script_tools.rs`,
  `src/script_runtime.rs`, `src/xml_json.rs`, `src/json_schema.rs`: what a
  request script sees
  through its `fm` object.
- `src/sse.rs`, `src/ai_stream.rs`, `src/ws.rs`: event streams and sockets.
- `src/orchestration.rs`, `src/cron.rs`, `src/scripts.rs`,
  `src/history.rs`, `src/backup.rs`, `src/app_config.rs`: records and their
  rules, the schedules of orchestrations and the daily backup.
- `src/encryption.rs`: the `nonce:ciphertext` format of stored secrets.
- `app/`: file system (the key file, `config.json`), clock, network (HTTP with timing, event streams,
  WebSocket), the JavaScript engine, scheduled tasks, JSON text and
  floating point around the library.
- `tests/`: the tests, run against the compiled library.
