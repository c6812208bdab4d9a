# xvnc_viewer

The proxy logic of a desktop VNC viewer, verified with Verus.

The viewer's WebView speaks WebSocket while VNC servers speak raw TCP, so the
app runs a loopback WebSocket-to-TCP proxy. A session is opened for a host and
port and handed out as a one-time URL `ws://<addr>/vnc/<id>?secret=<secret>`
that expires after 45 seconds.

- `src/` is the verified library: target checks (`target`), request routes and
  origins (`request`), the session table (`session`), the message forwarding
  rule (`bridge`) and the character-level helpers they share (`text`).
- `app/` is the Tauri shell and the tokio I/O around it: the listener, the
  WebSocket handshake, the byte pumps and the window shortcuts.
- `tests/` exercises the library on concrete values.
