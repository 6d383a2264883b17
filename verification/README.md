# networkquality

Measures the quality of a network: how responsive it stays under load, how much
it carries, how long handshakes take and how many packets it loses.

- `src/` is the library. It decides, counts and computes, and performs no I/O.
  Verus proves the contract of every function but those few that call another
  crate: theirs is taken on trust (see below). There is no floating point in it:
  times are nanoseconds, and throughput and responsiveness are exact ratios
  (`exact`, `wide`) until they are rounded for a report.
- `tests/` runs the library on concrete values.
- `app/` is the command line program `mach` around it: sockets, TLS, HTTP, TURN
  and WebRTC, arguments and JSON. It hands the library plain events and does what
  the library asks for.

A responsiveness test (`src/responsiveness.rs`) is a state machine. Its driver
opens load-generating connections, sends probes and ticks once per interval;
the test says what to do next, and ends once throughput and responsiveness have
settled (`settling` states what that means over a whole run). The other tests (`latency`, `packet_loss`, `saturate`, `up_down`) are
built in the same way from the same parts: series of samples (`stats`,
`counter`), bodies that count bytes (`body`), loads (`load`, `relay`) and
requests (`client`, `headers`, `scoped_headers`, `uri`).

What the library takes on trust from other crates stands in small functions, each
with a comment that says what is claimed: header maps and header names
(`headers`), URIs (`uri`), reason phrases (`client`), slot maps (`connections`),
random numbers (`body`, `load`) and amounts for readers (`text`). Of a random
number generator that seeds itself nothing is claimed at all.
