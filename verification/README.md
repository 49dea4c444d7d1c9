# clarity_effects

Tells what Clarity contracts and transactions can read, write and call, without
executing them, and decides what goes on around that: which blocks are validated,
what is expected of a block that is replayed, and what an audit of types reports.

- `src/` is the library. Every function states in its contract what it returns, and
  Verus proves it, with three exceptions that Verus believes: `trim` and
  `to_lowercase` in `text`, which call `str::trim` and `str::to_lowercase`, and
  `capture` in `blocks`, which calls the `regex` crate.
- `tests/` runs the library.
- `app/` is ordinary Rust around the library: commands that read databases and
  files, hand plain values to the library, and print.

## Layout of `src/`

| modules | what they hold |
| --- | --- |
| `ordered`, `codes`, `types` | ordered sets and maps, and the values that they hold |
| `effects`, `contracts`, `following` | effects of functions, and following calls from contract to contract |
| `syntax`, `analyzer`, `propagation`, `analysis`, `deployment` | the analysis of one contract |
| `graph`, `transaction`, `tx_report` | reports on transactions |
| `format`, `output` | effects as text and as JSON |
| `text`, `options`, `blocks`, `inspect`, `replay` | the commands: arguments, selections, replaying blocks |
| `audit`, `type_audit`, `audit_report` | the audit of types |

Contracts that are needed and have not been read yet stop the work by name: the
caller reads them, adds what it found to a store, and starts again.

Functions whose names begin with `law_` state what holds of the library as a whole.
