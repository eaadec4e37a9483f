# orbit-rs

Captures the live 1080p H.264 stream from DJI Goggles 3 / N3 / 2 over USB and
hands it to a renderer, a file or a pipe.

The library under `src/` holds what the program decides and computes, verified
with Verus: the `55 CC` framing, the DUML checksums and commands, the EP0 events,
plug-in sessions, the life of the configfs / FunctionFS gadget, the wire protocol
of the "Liveview sharing" network link with its reassembly and watchdog, the
config file and the command line. It does no I/O: it is handed what was read and
says what is to be done.

The program under `app/` does the system calls around it.

| path | role |
|---|---|
| `src/common.rs` | `55 CC` framing, error numbers, writing a buffer out |
| `src/capture/` | DUML commands, EP0 events, sessions, video, options |
| `src/gadget/` | descriptor blocks, the gadget's steps, its lifecycle and the laws about it |
| `src/goggles_net/` | handshake, link, reassembly, interface discovery |
| `src/envcfg.rs` | the `KEY=value` config file |
| `src/cli.rs` | command line, renderer and output |
| `src/text.rs` | text helpers |
| `tests/` | tests of the library |
| `app/` | the program |
