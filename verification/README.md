# quartz

The core of a Minecraft server, written in Verus: the logic carries requires / ensures
contracts that the verifier proves.

- `src/` is the verified library: byte buffers and the protocol's data types, packet
  decoding and encoding, the server list ping, SNBT parsing and printing, the chat
  format (`&`-codes and `{...}` components), the command tree and its dispatcher,
  unlocalized names, UUIDs, ID lists and registries, block states, items and inventories,
  the Java random number generator, integer math and the thread pool's scheduling
  decisions. The laws
  that relate several functions stand as public proof functions beside them.
- `app/` is the program around it: sockets, threads, the console, the tick clock,
  logging, the JSON forms of chat and status messages, and what works on floating point.
- `tests/` runs the library on concrete values.

MD5 digests come from the `md-5` package, whose library is named `md5`.

Packets can be compressed with zlib (through flate2) once a threshold is set. Connections are
not encrypted: logging in does nothing yet, so nothing switches encryption on.
