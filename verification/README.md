# screenguard

Rules and decisions of ScreenGuard, a screen-time agent for Windows with a server beside it.
The library under `src/` is verified with Verus; the programs under `app/` read, write, wait
and call Windows, and hand everything that is to be decided to the library.

| Module | What it decides |
|---|---|
| `policy`, `clock` | how much time a user has left, and when a blocked session is logged off |
| `runtime` | what the agent remembers between events, and what it does on each of them |
| `db` | what the agent keeps between runs: identities, policies, locks and use |
| `link` | pairing, reconnecting, and what the agent says of itself |
| `enforcement` | locking sessions and ending them after a grace period |
| `proxy`, `address` | which hosts are blocked, which requests go through, which headers are removed |
| `filter` | which users are filtered, through which ports, and what is blocked beside them |
| `ipc`, `tray` | what the helper of a session is told and shows, and its user's proxy settings |
| `native` | what Windows hands over: texts, accounts, sessions, sockets |
| `config`, `service`, `update` | settings, the service, the updater and the log |
| `unifi` | clients of a UniFi controller: settings, synchronisation, block rules and their ownership |
| `release_check` | which release is the latest for a platform |
| `text`, `json`, `ids` | strings, JSON values and identifiers that the rules are stated with |

Public proof functions whose names begin with `law_` state what holds of the library as a
whole.
