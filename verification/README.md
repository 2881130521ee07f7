# driftwatch

Watches a Solana validator's disk, its vote data and its network drops on one
timeline: one line, or one JSON object, per window.

The library under `src/` holds the formats, the counters, the windows, the alerts
and the reports, and Verus proves it against its contracts. `app/` is the program
around it, which is not verified: the command line, the eBPF loader and kernel
side, files, commands, the RPC connection, timers and channels.

| module       | what it holds                                                    |
| ------------ | ---------------------------------------------------------------- |
| `probe`      | which block requests are traced, and the event each becomes      |
| `event`      | the record that travels from the kernel to the daemon            |
| `disk`       | windows of requests, their percentiles and lines                 |
| `counters`   | NIC ring, NAPI and UDP counters, read from their files           |
| `net`        | growth of the counters from window to window                     |
| `validator`  | the validator's process, user, open sockets and port roles       |
| `sockets`    | drops of the validator's sockets, by port                        |
| `rpc`        | what a poll of the validator gives, and the account it follows    |
| `output`     | status lines                                                     |
| `correlate`  | the alerts, each on a signal of its own                          |
| `report`     | the line or JSON object of a window                              |
| `timeline`   | what arrives, and what is to be done about it                    |
| `cli`        | device names, thresholds, the setup check                        |
| `json`       | JSON documents, through `serde_json`                             |
| `text`, `number`, `order`, `table`, `source` | what the others are built of     |

Properties that hold of all inputs, and that relate several functions, are the
public proof functions whose names begin with `law_`.
