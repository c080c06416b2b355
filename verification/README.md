# E1.31 divider

Divides one E1.31 (streaming ACN) output between several senders. Senders queue for a fixed number
of output slots; while others wait, each slot changes hands once its holder has had its time.

- `src/` is the verified library: reading and writing packets, the state of all sources, the frame
  that moves sources between queue and slots, and the laws that hold of them (`src/laws.rs`).
- `app/` is the program around it: arguments, sockets, the clock and the status site.
- `tests/` runs the library on concrete packets and frames.
