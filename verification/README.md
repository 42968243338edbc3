# rust-clash

The core of a rule based proxy client: it reads subscriptions, decides by domain
and address what goes direct, through a proxy or nowhere, speaks to proxy servers
(VLESS with REALITY and Vision, Trojan, VMess, Shadowsocks, SOCKS5, HTTP), and
catches the traffic of a whole system through a virtual interface.

`src/` is the library. Its functions carry contracts that Verus proves.
What an outside crate computes (ciphers, digests, JSON, URLs, gzip) stands behind
small wrappers whose contracts say in their comments what is taken on trust.
Streams are machines without I/O: bytes are fed in, data is read out, and what has
to be sent is handed over; the caller does the reading and the writing.

- `text`, `codec`, `wide`, `ip`, `json`, `hash`, `random`, `bindings`: foundations
- `config`: nodes, share links, YAML and JSON subscriptions, stored profiles
- `dns`: messages, fake addresses, lookups over HTTPS
- `rules`, `utils`: the rule database and its cache
- `inbound`, `relay`, `net`, `outbound`: the local proxy and its ways out
- `proxynet`: the protocols of proxy servers
- `tun`: packets, the table of connections, routes and the service
- `sysproxy`: the proxy settings of Windows, macOS and GNOME
- `panel`, `tray`, `theme`, `ui_state`, `paths`, `calendar`: what the user sees

Laws that relate several functions are the proof functions named `law_..`.

`app/` is a program around the library, with a panel in a terminal: sockets, files,
the system's settings and the virtual interface. It looks for `Rules.bin.gz` and,
on Windows, `wintun.dll` beside the program. `tests/` runs the library.
