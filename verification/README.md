# multiagent

The verified core of the MultiAGENT desktop workspace: remote mode over
Discord and Telegram bots, the Linux bridge between the official Codex Chrome
extension and Codex, and the text rules of the desktop app. Every function in
`src/` is proved by Verus against its `requires`/`ensures`; the laws the
library keeps stand as `law_*` proof functions.

## Layout

- `src/text.rs` — string operations (`trim`, `find`, `replace`, ASCII case,
  integer parsing) over their specifications.
- `src/json.rs` — a JSON document model, accessors and compact text.
- `src/chunk.rs` — splitting outgoing messages under a byte limit.
- `src/remote.rs`, `src/auth_poll.rs` — the bot API requests and answers, and
  the steps of the 6-digit code authentication.
- `src/native_host.rs` — the native messaging host: replies, the store of
  browser notifications, framing, and the local broker's messages.
- `src/paths.rs` — Unix paths as text: joining, components, order.
- `src/bridge.rs` — Codex's plugin config, the manifests, the wrapper script,
  the bundled plugin files, the steps of enabling the bridge, and the
  bridge's status.
- `src/browser.rs`, `src/ui_text.rs`, `src/app_info.rs` — the browser tab and
  its history, the actions tab's checks, settings pages and app identity.
- `app/` — the program around the library: stdin/stdout framing and the Unix
  socket broker, the file system, the clock, and HTTP.
- `tests/` — tests of the library on concrete values.
