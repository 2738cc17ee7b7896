# screen_mirror

The verified core of a low-latency screen mirroring application for Windows: one machine captures
its desktop, or a virtual display, and sends it as H.264 over RTP to receivers on the local network.

- `src/` is the library. It decides what is sent where: LAN discovery and its messages, the choice of
  GPU, encoder, decoder and sink, the pipeline descriptions, the sessions of the sender and the
  receiver, virtual displays, the driver's settings, configuration, the tray menu, updates, what is
  logged of the choices, and the visual probe of the receiver's window. The functions carry contracts
  that Verus proves; only what the system clock reports is left open.
- `app/` is the program around it: the command line, the configuration file, sockets, GStreamer, the
  Windows APIs and the tray. It hands plain values to the library and does what the library decides.
- `tests/` run the library on concrete values.

What the proofs rest on besides Verus: SHA-256 of the `sha2` crate, the system clock, and a few
functions of the standard library on strings and characters, its quoting of strings among them. Each
stands behind an item whose comment says what is taken on trust.
