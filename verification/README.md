# Railwatch

Monitoring of MSI power supplies: decoding of their reports, alerts, energy and its cost, a daemon
with its clients, and a desktop window.

The library under `src/` holds the rules, each function with a contract that Verus proves. `app/`
is ordinary Rust around it: the HID descriptor, SQLite, Unix sockets, threads, argument handling,
the window, and what is computed in floating point. `tests/` runs the library.

| Module | Subject |
| --- | --- |
| `wire`, `protocol` | requests, replies, and the numbers in a report |
| `device` | which supply is opened, transactions with it, its groups of readings, the simulator |
| `model`, `measurements` | readings, and the balance of a connector's load |
| `alerts` | conditions, their waiting times, and the incidents that they open |
| `runtime` | the monitor: evidence, what waits for storage, and what clients see |
| `history`, `pricing` | segments of recorded energy, dated prices, and what a period cost |
| `calendar`, `clock` | days, periods and time zones |
| `ipc`, `plugin`, `cli`, `desktop` | the protocol of the daemon and what its clients show |
| `notify`, `tone` | what is announced, how often, and with which sound |
| `ordered_map`, `bounded`, `arith`, `text` | what the others are built from |

The program has three names: `railwatchd` is the daemon, `railwatch-gui` the window, and any other
name the command line.

What is believed without proof stands in `calendar` (dates and time zones of `chrono` and
`chrono_tz`), in `device` (text in bytes, from the standard library) and in `alerts` (random
identifiers of `uuid`).
