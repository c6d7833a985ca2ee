# omni_proxy

The decision logic of OmniProxy, an intercepting HTTP(S) proxy for API
debugging, written in Verus with its behaviour stated as contracts and proved.

- `src/` is the verified library: the filter language with its light regular
  expressions (`query`), the rule file with its deny, header, status and body
  actions (`rules`), the event model and lag budget of the event stream (`api`), flow
  correlation and the offline report (`analyze`, `report`, `ranking`), replay
  selection, header rebuilding, curl rendering and response comparison
  (`replay`, `replay_tool`, `headers`, `digest`), the TUI state machine
  (`tui`), the command plans of the system-proxy, transparent-redirect, VPN
  and launcher tools (`system_proxy`, `transparent`, `vpn`, `launch`,
  `commands`), plugin mutation merging (`plugins`), the filter-chain order and
  the request-id filter (`filter`) and benchmark summaries (`bench`). Calls into outside crates
  (base64, sha2, reqwest's header and URL types, uuid) go through small
  trusted wrappers whose contracts say what the crates document.
- `app/` is the program around it: argument parsing, files, sockets, the
  MITM engine, the Wasm host, the terminal UI drawing and the process runs.
- `tests/` runs the library on concrete inputs.
