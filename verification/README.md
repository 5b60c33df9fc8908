# bogoforge

A client for a distributed "bogo shuffle" search: the server hands out
leases (a seed and a number of shuffles), the client shuffles the numbers
1..=25 once per index of the lease on its CPU (and optionally a Vulkan GPU),
and reports the shuffle with the most fixed points.

- `src/` is the verified library (Verus): configuration rules and GPU
  profiles (`config`), the lease scheduler (`scheduler`) and its whole-lease laws (`lease_laws`), the shuffle kernel
  and the decoding of GPU results (`compute`), server messages and the
  reconnection policy (`net`), session metrics (`metrics`), and the
  dashboard texts (`tui`, `text`).
- `app/` is the program around it: configuration file, WebSocket
  connection, tasks and channels, the Vulkan device, and the terminal UI.
- `tests/` exercises the library on concrete values.
