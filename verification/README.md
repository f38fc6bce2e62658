# lazyamp

A terminal UI for managing Amp `--no-tui` runners on this machine: it lists the runners, starts,
stops and restarts them, and adds or removes the directories that they serve.

The library under `src/` holds the rules and is verified with Verus. The program under `app/` is
ordinary Rust: it reads the terminal, the file system and the process table, and does what the
library asks for.

## Layout

| Module | What it holds |
| --- | --- |
| `text`, `path`, `order` | texts, Unix paths and the order of texts, with their models |
| `runner`, `args` | runners, start options, and the command lines for Amp |
| `json`, `listing` | what `amp runner list` and `amp runner dirs list` print |
| `process` | `amp --no-tui` processes, and their merge with Amp's list |
| `client` | what the replies of Amp mean |
| `launch`, `start`, `stop` | registries, launch specs, starting with a health check, stopping with an identity check |
| `jobs` | the jobs of the worker, step by step |
| `document`, `config` | TOML documents, the config and its file |
| `dirpick`, `trail`, `picker` | the search for directories, what a whole walk finds, and the directory picker |
| `flags`, `app`, `screen` | the flags panel, the state of the UI, and what the screen shows |

What depends on the outside is asked for and answered: `App::handle_key` and `App::handle_event`
return an `Effect`, and `JobRun`, `StartRun` and `StopRun` return the next question. Each answer is
an argument of the next step, so every step is verified for every answer.
