# orb

The decision-making core of Orb, a small LAN file-transfer tool, written in
Verus. `src/` holds the verified library; `app/` holds the program around it
(terminal prompts, sockets, files, the mDNS daemon and the async runtime).

Modules of the library:

- `state`: the advertised node state and its text form.
- `text`: equality, Unicode whitespace trimming, field splitting, decimal
  numbers, and lossy UTF-8 decoding of received bytes.
- `discover`: the UDP beacon scheme (interface selection, broadcast
  addresses, beacon text).
- `peers`: the table of discovered peers with its time-to-live cleanup.
- `service`: the mDNS service record that advertises a node.
- `identity`: node ids from Ed25519 keys (and the older UUID ids).
- `handshake`: the hello, the answer, and their reading.
- `transfer`: metadata, length and size framing, confirmations, file names.
- `menu`: the menu and receiver choices of the front end.
- `models`, `logic`: vector clocks, file states and sync actions.
