# wdctl

Talking to the watchdogs of a Linux system, and testing their drivers.

- `src/` is the library. It decides what to ask a watchdog device and what to make of the answer,
  which watchdogs there are and what their sysfs attributes say, what the kernel log says, and
  which watchdog a driver test runs on. Every function has a contract that Verus proves. The
  functions of `src/foreign.rs` are the exception: they call `std` and `nix`, and their contracts
  are believed.
- `app/` does the input and output: files, ioctls, clocks, environment variables.
- `tests/` runs the library, in part against simulated watchdogs.

## Closing a device

A watchdog that is open keeps counting. Writing the byte `V` before the close tells the kernel to
stop it. Dropping a handle, a magic close and a session all write `V` first; only
`close_without_v` does not. `src/device.rs` states and proves this.
