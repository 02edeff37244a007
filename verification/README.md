# plume

Rules for finding, pairing, provisioning, signing for and installing on Apple devices, as a library
whose behaviour is stated in contracts and proved with Verus.

- `src/` is the library. It decides and computes: how services found on the network become devices,
  which of two records of a device wins, when a device is gone, how a pairing or a tunnel proceeds
  from one answer to the next, what a provisioning profile grants, which changes signing makes to a
  bundle, and what is told of all that. Calls into other crates stand in `outside.rs`, `crypto.rs`,
  `text.rs` and `wide.rs`, each behind a contract of its own.
- `tests/` runs the library on concrete values, with the other crates linked.
- `app/` is a command line program around the library: it browses the network, talks to devices and
  reads and writes files, and asks the library what to do next.
