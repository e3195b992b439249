# benilla

The rules of the benilla client's data and host layer, written in Verus and proved against their
contracts:

- `chain`, `listing`, `order` — the vanilla MPQ mount law, name resolution through the patch chain
  (delete-markers included), and the chain's listing.
- `web_chain`, `read_cache` — the browser build's chain: the name index, the per-name verification
  cache, and the byte-budgeted least-recently-used read cache.
- `data`, `addons`, `ws` — the local web host's rules: request names, content types, Warden module
  filenames, addon path safety, and the WebSocket proxy's port allowlist and host choice.
- `probe_bg`, `census`, `hover`, `sysprof`, `journal`, `char_create`, `cvars` — the client's probes
  and instruments: the battleground probe's state machine and census lines, the hover probe's aim,
  the per-system profiler's totals, the FPS journal's columns, the character-creation tower's
  budget, and URL setting overrides.

`app/` is the web host itself (HTTP routes, the TCP relay, the archives on disk), built on the
library. `tests/` exercises the library on concrete values.
