# tg_unblock

A local SOCKS5 proxy for Telegram Desktop that carries Telegram traffic
through WebSocket tunnels to the data centres' endpoints
(`pluto`, `venus`, `aurora`, `vesta`, `flora` `.web.telegram.org`), chosen
by the destination address, so that the network sees ordinary HTTPS, and
passes all other traffic straight through. Starting the bypass switches DNS
to Cloudflare (1.1.1.1); stopping it ends every tunnel and gives DNS back to
DHCP.

- `src/` is the verified library (Verus): the SOCKS5 handshake as a state
  machine, the destination parser (IPv4, domain, IPv6 text), the data-centre
  choice from addresses and from the client's obfuscated2 init packet
  (AES-256-CTR from the `aes`/`ctr` crates), the tunnel's relay decisions,
  the proxy counters, the diagnostics' output readers and benchmark score,
  the DNS/GoodbyeDPI command lines, and the window's texts and log.
- `app/` is the program around it: the `eframe` window, the `tokio` sockets
  and WebSocket client, and the processes and files the helpers touch.
- `tests/` exercises the library on concrete values.

The proxy listens on `127.0.0.1:1080`.

`winit` is named directly only for its default features: `eframe` pulls it in
through `egui-winit` and `glutin-winit` with its features off, and on Linux
it then has no window-system backend (`x11`, or `wayland` loaded at run time)
and does not build. On Windows, where the tool is meant to run, it needs none.
