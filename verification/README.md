# listener

Receives byte streams from UDP, TCP and serial sources, frames and identifies messages in
them, and presents the bytes as text or hex.

- `src/` is the verified library: configuration and its validation, message extraction,
  NMEA 0183 decoding and ZDA sentences, text decoding and rendering, diagnostics, and the
  decisions of the graphical interface (view-model, driver, editors, panels).
- `app/` is the program around it: command line, profile files, sockets and serial ports,
  and the window.
- `tests/` runs the library.

The stream renderer's central property is proved in `src/display/stream.rs`: however a
stream is cut into chunks, its rendered text is the same.
`src/display/wrapping.rs` proves what wrapping in Raw mode keeps whole, and
`src/gui/rows.rs` that the rows of the stream view, refreshed as bytes arrive, are those of
the bytes rendered at once.
