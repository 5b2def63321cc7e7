# braindump

`bd` appends timestamped thoughts to one Markdown file per user:

```
# 2026-08-11

## 14:37:01
remember to buy milk
```

Without a config, setup offers `~/braindump/braindump.md` as the default
file, as the usage guide and the setup code of the tool say.

The crate is split in two.

- `src/` is the library, verified with Verus. It holds the rules of the tool,
  each with a contract, and the laws that hold across calls:
  - `journal`: day and time headers, the separator before an entry, and the
    entry text for a given day and time;
  - `stamp`: the day and time stamps, written from the clock's numbers;
  - `note`: line-ending normalization of inline notes, trimming of blank lines
    from interactive input, blankness;
  - `cli`: the slot-0 command allow-list and the `--` escape;
  - `config`: where the config lives, the TOML text that records the path
    (through `toml`), and when a configured path is usable;
  - `setup`: the default path, how a typed path is resolved, how a path is
    shown, and the setup dialogue as a step function;
  - `migration`: how the old file's bytes are merged into the new one;
  - `uninstall`: the confirmation and what is removed;
  - `paths` and `text`: path joining, components, comparison and parents
    (by the Unix rules of `std::path`), whitespace and trimming.
- `app/main.rs` is the program: arguments, terminal, environment, the local
  clock (through `chrono`), files and processes. It hands plain values to the
  library and performs what it decides.

`tests/` runs the library on concrete inputs.
