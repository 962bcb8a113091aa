# scout

Local host discovery and TCP probing, with its decision-making verified by Verus.

- `src/` is the verified library: port selections and their parsing, target
  expansion (addresses and CIDR blocks), banner and `ping` output parsing, service
  and OS fingerprinting, the per-host reports of the Inspect stage and the
  coordinator that drives it, the Discover stage's candidate hosts and live-host
  filter, the result tables, the text renderings, and the state machine of the
  interactive front-end. `src/laws.rs` states the properties that span several
  operations.
- `app/` is the program around it: argument parsing, sockets, `ping`, the
  terminal, progress spinners and tables. It hands the library plain values and
  carries out what the library decides.
- `tests/` exercises the library on concrete values.

IPv4 addresses are `u32`s, most significant byte first.
