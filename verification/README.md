# imq

Image and video quality tools on a verified core.

`src/` is the library. It does no I/O: it takes frames, bundle bytes, rules, report
values and key presses, and gives frames, bytes, decisions, texts and states back.
Every function states what it returns or changes in a Verus contract, and the
contracts are proved. Public functions named `law_..` state what holds of several
functions together, such as that decoding an `imqraw` bundle undoes encoding it.

Scores are binary64 values. The library carries their bit patterns, orders them by
these, and leaves arithmetic on them to its callers.

| Module | What it holds |
| --- | --- |
| `frame` | validated image buffers and plane layouts |
| `imqraw` | the raw bundle format; `capi` and `web` offer it to C and to browsers |
| `adapters` | views of common buffers, bit-packed gray, images of the `image` crate |
| `metrics`, `gate`, `external`, `diff`, `color` | scores and what is decided from them |
| `gpu` | limits, dispatch plans, exact error sums, and CPU fallback |
| `cli` | plans, reports, tables and texts of the command line |
| `tui` | state, file list, previews and panels of the browser |
| `strings`, `text`, `bytes` | text and number building blocks |

`app/` holds the programs around the library: arguments, files, processes, the
terminal, SQLite, the C functions and the browser bindings, and the floating-point
work. The program compares by the RGBA8 error metrics. Ranking a suite of candidates,
image statistics, timestamp alignment and terminal graphics have no engine in it; the
library plans and reports them for programs that have one. `tests/` exercises the
library through its public functions.

What the library takes on trust is small and marked: UTF-8 decoding, lower case and
`String::push` of the standard library, one line of the `csv` crate's writer, and
decoding and converting images with the `image` crate.
