# singboard

The verified core of a desktop dashboard for sing-box and of its privileged
macOS helper. `src/` holds the logic, each public function with a contract
proved by Verus; `app/` holds the I/O around it (the helper's Unix-socket
daemon, launchd and `networksetup` calls, file access, HTTP and DNS clients).

- `text`: trimming, splitting, lines, case mapping and number parsing over characters.
- `ip`: IPv4 and IPv6 address texts in the standard library's grammar.
- `dns`: record types, name servers, query plans and answers.
- `proxy`: the system proxy on Windows and macOS, and the proxy the HTTP client uses.
- `runtime_scan`: the depth-limited walk that finds the sing-box binary and `config.json`.
- `json`: JSON values as serde_json reads them, and member lookup.
- `config_file`: saving and checking the configuration.
- `gateway`: the TUN inbound's gateways, read from the configuration's JSON, and the DNS servers kept set.
- `launchd`, `netsetup`: launchd plists and status, `networksetup` arguments.
- `helper`: the helper's requests, read from JSON lines, and its commands as step-by-step jobs.
