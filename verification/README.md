# mxu_telemetry

Failure telemetry for a task runner, written in Verus: what is noted of runs, tasks and nodes, which
logs and screenshots belong to a task that failed, and what is reported of it.

- `src/` is the verified library. It reads no file and no clock and opens no connection: directory
  listings, open files, clock readings and spans come in as arguments or through closures, and what
  is to be sent goes out as plain values.
- `app/` is the ordinary Rust around it: files, locks, threads, the reporting client, and what is
  read of the machine.
- `tests/` runs the library on values, with the outside crates linked.

| Module | What it holds |
| --- | --- |
| `text`, `order`, `map`, `path`, `time` | texts, sorting, ordered maps, paths and clocks |
| `discovery` | the bounded walk over the directory of the logs |
| `evidence`, `selection` | the baseline of a task, and what was written since |
| `logs`, `records` | bounded log tails, and the bounded records they are sent as |
| `bundle` | the ZIP file of the screenshots |
| `runs`, `nodes`, `endings` | runs and tasks from start to end |
| `report`, `event` | what is reported of a failure |
| `submission`, `workers` | how a failure is submitted, and what waits for its evidence |
| `json`, `version`, `sampling`, `config` | configuration, builds that do not report, sampling |
| `state` | what is told of the instances |

Items marked `external_body` or `assume_specification` state what an outside function does; each says
which one. Everything else is proved.
