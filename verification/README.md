# seahorse

A small framework for command-line applications, written in Verus: commands
with flags, aliases and sub commands; the decision of where a command line
leads; and the help text of a command. Each function states what it does in
its contract, and Verus proves it.

- `src/command.rs` — `Command`, its builders, argument normalization
  (`--name=value` becomes `--name value`) and `Command::run`, which returns a
  `Dispatch`: the help text or the action of the command the line reaches.
- `src/help.rs` — the help text, with its columns padded by byte length.
- `src/flag.rs`, `src/context.rs` — flags, and the context an action gets.
- `src/data.rs` — `Data<T>`, shared application data.
- `src/laws.rs` — properties across functions (paths reach their command,
  sub command names stay distinct, normalization loses nothing, help columns
  line up).
- `app/` — the runtime: type-keyed application data (moved down the path a
  command line takes, as each command's own data), printing the help text,
  calling actions.
