# exsync

A one-shot sync tool for external drives on macOS. Each configured entry
either mirrors a source folder onto a drive or moves files onto it; the
tool runs once, logs one run line, and announces failures as notifications.

The library in `src/` is verified with Verus. It holds the decisions and
the data handling:

- `config`, `config_model`: the strict TOML-subset configuration reader and
  its mathematical model.
- `matcher`: include/exclude globs, the file-name regular expression (through
  the `regex` crate), the `.DS_Store` default and the age guard.
- `paths`, `order`: lexical path handling and the path and text orders.
- `dispatch`, `flow`, `steps`, `copy`: the run over the entries, the course
  of one entry in mirror or move mode, one file's turn, and the verified
  copy, each as a state machine whose laws are proved.
- `rules`: markers, bookkeeping names and the unmanaged-destination guard.
- `log`, `manifest`, `notify`, `hash`, `cli`, `text`: record formats,
  timestamps, FNV-1a, arguments and character helpers.

`app/` is the command around it: environment, files, processes and the
loops that carry out what the state machines ask for. `tests/` runs the
library on concrete values.
