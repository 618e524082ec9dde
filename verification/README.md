# nimble-rs

A Rust host for the esp-nimble BLE stack over any `bt-hci` controller,
whose core logic is written in Verus and proved against its contracts.

## Layout

- `src/` — the verified library:
  - `features`, `settings`, `builder`, `text`: the mapping of Cargo
    features to the `MYNEWT_VAL_*` configuration of the C host, the
    prebuilt-configuration check, and the build plan (include directories,
    defines, C sources, clang arguments, exported metadata).
  - `npl`: the porting-layer state machines the C host runs on — event
    queues and their queued flags, deadline-sorted callout timers, recursive
    mutexes, semaphores, critical-section nesting, the waiting and timer
    steps, and the `Parker` abstraction.
  - `hci`: the dispatcher table of each role set and command dispatch, the
    Command Complete / Command Status acknowledgements (with the
    controller's status for a failed command), the pump's transmit
    priority and outgoing ACL check, event framing, ACL flattening into
    fixed `heapless` buffers, and the pump registration.
  - `gap`, `gatt`, `gatt::server`, `gatt::client`, `l2cap`, `mbuf`: the
    decoding of host events into safe values, the runtime GATT service
    table, advertising parameters and the outcome rules of host calls.
  - `clog`: reassembly of the C host's log output into lines.
  - `driver`: the single-driver claim, the step-by-step registration and
    address call chains, and the event subscriptions.
  - `tooling`: the verdicts of the end-to-end tooling.
- `tests/` — tests of the library, run against the real outside crates.
- `app/` — what stays outside the verified library: the build script
  (environment, directories, `cc`, `bindgen`), the `bt-hci` controller
  traits, typed command execution and the transmit step, the `enumset`
  flag set, the `log`
  backend, the platform parkers and the tooling's process handling.

The laws the library promises (first-in first-out queues, one queue per
event, an unlock undoing a lock, acknowledgements reaching the host byte
for byte, settings depending only on the set of enabled features, and
more) are public proof functions named `law_*`.
