# ddos_stage1

The first stage of a gateway that learns what normal traffic looks like and
flags what is not: it counts packets, closes a window every fifty of them,
judges each window against two running baselines (packet rate and diversity of
the sources) and reports to a second stage over a Unix domain socket.

- `src/` is the library. Everything in it is verified with Verus, except for one
  call into `byteorder`, whose contract is stated and believed
  (`wire::append_u64`).
- `app/` holds what the library leaves to its caller: the clock, the files, the
  socket and the arithmetic on doubles.
- `tests/` runs the library on concrete values.

| Module | What it holds |
| --- | --- |
| `address`, `packet` | addresses, protocols, packets |
| `tally` | counts by key, in the order of first mention |
| `entropy` | the sources of a window, and what its entropy is computed from |
| `entropy_laws` | that the entropy lies between 0 and 1, does not depend on the rate and rises as the sources even out |
| `flows`, `text` | the busiest flows, and the JSON that lists them |
| `analysis` | windows of fifty packets, and what is known of each |
| `scalar` | doubles as bits, and their order |
| `detector` | what is decided about a window, and the memory between windows |
| `wire`, `ipc` | bytes of vectors and reports, and the steps of sending them |
