# mgd

A userspace memory-pressure manager for the Linux desktop, with its decisions
verified in Verus. It watches the kernel's pressure stall information, and
freezes, checkpoints or ends processes in the order of their priority before
the machine stalls; it brings them back once the pressure is gone.

## Layout

- `src/` is the library: every decision, parser, report and state machine, with
  its contract. It does no input or output. Times, file contents and the results
  of system calls come in as values; actions go out through the `ActionSink`
  trait or as values that say what to write where.
- `app/` is the program around it: threads, sockets, signals, `/proc`, control
  groups and configuration files. One binary serves the daemon, `mgctl`, the
  plugins and the helpers; the name by which it is called selects which.
- `tests/` runs the library on concrete values.

## The library by topic

| Topic | Modules |
|-------|---------|
| Text, numbers, paths, tables | `text`, `fixed`, `paths`, `table`, `order`, `types`, `pattern` |
| What the kernel reports | `meminfo`, `psi`, `trigger`, `process`, `gpu`, `zram`, `cache` |
| Configuration and calibration | `config`, `calibrate`, `sweep` |
| Pressure to level | `controller`, `responder` |
| Level to actions | `decision`, `evictor`, `executor`, `preactions`, `idle`, `throttle` |
| Spike mode | `spike`, `spike_cycle` |
| Bringing processes back | `health`, `recovery`, `registry` |
| Upkeep | `maintenance`, `logger`, `events` |
| Control socket and plugins | `ipc`, `reports`, `protocol`, `plugin_server`, `gpu_watch`, `kde` |
| Command lines and helpers | `cli`, `doctor`, `checkpoint_helper` |

## Conventions

- Percentages, factors and scores are fixed-point numbers: billionths in a `u64`
  (`fixed::Fixed`).
- `now` is in milliseconds of a steady clock, `unix` in seconds since the epoch.
- A spec function says what a value is; the executable function of a similar
  name is proved to compute it. Proof functions named `law_*` state what holds of
  the library as a whole.
- What is not proved is the code of other crates: compiling and matching regular
  expressions, JSON, and a few functions of the standard library. Each such call
  stands in a small function whose doc comment says what is taken for granted.
