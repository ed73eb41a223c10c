# cczuvpnproto

The wire protocol and client logic of the CCZU WebVPN tunnel, written in Verus.

- `src/` is the verified library:
  - `vpn::protocol::write` builds the login and data frames; `vpn::protocol::read`
    parses the login answer (fed one byte at a time); `vpn::protocol::stream` cuts
    inbound frames out of the bytes read from the tunnel.
  - `proxy::proto` holds the legacy framing and answer parsing, `proxy::service`
    the legacy session state and the packet poller's decisions.
  - `route` reads split-tunnel rules and plans the routes to install; `cli` holds
    the console client's decisions.
  - `wire` and `text` wrap the byte writer and the few `std` string functions used.
- `app/` is the program around it: TLS connection, TUN device, console, route
  commands, UniFFI exports.
- `tests/` runs the library on concrete inputs.
