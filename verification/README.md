# yoyo

The decision logic of the `yoyo` coding agent, verified with Verus.

`src/` is the library. Every public function in it carries a `requires`/`ensures` contract
that Verus proves; strings are modelled by their `Seq<char>` views, and each contract is
stated over spec functions that say directly what the result is.

- `text`, `time` — character-level primitives (trimming, searching, splitting, decimal
  rendering, UTF-8 byte lengths, code-point order) and durations.
- `git`, `git_commit_msg` — parsing of `/git` arguments, porcelain status, diffs, stash
  lists and PR descriptions; stage selection; the report shown for each git outcome;
  the heuristic commit message.
- `hooks`, `hook_payload` — shell-hook configuration, the caps on what crosses the hook
  boundary, the warnings about hooks that can never fire, the post-hook chain, and the
  byte-bounded JSON a hook reads on stdin.
- `prompt_retry_limits`, `prompt`, `turn` — rate-limit hints and the wait/give-up
  decision, the classification of a turn's events and outcome, the tool calls in flight,
  and the attempt loop.
- `prompt_budget`, `run`, `gasp_cli`, `repl` — the session budget and audit-log
  strings, run exit codes, the `gasp` argument contract, and the interactive prompt's
  input handling and completion.

Laws that relate several calls are public proof functions named `law_*`.

`app/` is the command-line program around the library: it runs `git` and hook commands,
reads the environment and the clock, writes the audit log and prints what the library
decides. `tests/` runs the library on concrete values.
