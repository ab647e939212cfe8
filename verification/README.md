# gyre

A terminal agent: its command line, its commands, its message queue, its Markdown output, its
management of models, keys and servers, its browser tool and its tools for source code.

- `src/` is the library. All of it is verified with Verus. Text, files and replies of other
  programs come in as values, and what is to be printed, sent or done goes out as values.
- `app/` is the program around it: arguments, files, processes, sockets and the terminal.
- `tests/` runs the library on given values.

Texts that are shown to the user are named by keys of a catalogue (`say.rs`), which `app/` looks
up in `locales/<language>.json` of the configuration directory.

Models, tools and sessions live in an engine, a program of its own that `GYRE_ENGINE` names. It
is spoken to in lines of JSON (`app/engine.rs`).

| Modules | What they hold |
| --- | --- |
| `text`, `pieces`, `numeral`, `order`, `clock`, `data`, `json` | texts, numbers, values |
| `say`, `show`, `agents_view`, `markdown` | what is printed |
| `argv`, `menu`, `program` | the command line, and what the program does |
| `repl`, `commands`, `prompts`, `paste`, `todo`, `goal`, `switch`, `keybindings` | commands |
| `queue`, `queue_cmd`, `outline`, `session`, `turn`, `memory` | messages and turns |
| `manage`, `manage_run`, `admin`, `servers`, `config`, `secrets` | management commands |
| `host`, `hooks`, `review` | git, swarms, hooks, reviews |
| `launcher`, `cdp`, `browser` | the browser tool |
| `ast`, `summary`, `shape`, `pattern` | tools for source code |
