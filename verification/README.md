# Nest

Nest is a declarative task runner: a `nestfile` describes commands (with
parameters, directives such as `script`, `depends`, `env`, `cwd`,
`before`/`after`/`fallback`/`finally`, nested groups, variables, constants
and functions), and the `nest` program runs them.

The crate is written in Verus. Its library, under `src/`, holds the logic,
each function with a `requires`/`ensures` contract that Verus proves:

- `parser` reads a Nestfile into commands, variables, constants and
  functions; `merge` merges commands of the same name; `includes` decides
  which lines bring other files in, what their paths name, which files a
  directory or pattern brings in, and refuses circular inclusion;
- `template` fills `{{placeholders}}` and `{{ func() }}` calls; `env`
  resolves `${VAR:-default}` references and builds environments;
- `type_validator` and `runtime_validator` check arguments;
- `directives`, `runtime`, `scripts` and `runner` plan a run: the
  dependencies, the scripts and hooks, dry runs, logs; the run itself is a
  state machine whose actions the program performs;
- `json` lays out the `--show json` view of the commands;
- `cli_args`, `cli`, `flags`, `help`, `display`, `report`, `completion`,
  `watcher`, `browser`, `panes` and `session` hold the decisions of the
  command line and of the interactive browser.

Calls into other crates (`indexmap`, `regex`, `serde_json`, `sha2`, and a
few functions of `std`) stand behind small trusted items whose contracts
are stated in their doc comments.

`app/` is the program around the library: argument parsing, files,
processes, the network and the terminal. `tests/` holds the tests.
