# h5i-browser

A browser engine for coding agents, in which every request is judged by a
policy and written to a log before it reaches the wire. The decisions are a
library verified with [Verus](https://github.com/verus-lang/verus); sockets,
files and the rendering engine stand around it.

- `src/` is the library. Each public function states in its contract what it
  returns, and the properties that span functions are public proof functions
  whose names begin with `law_`.
- `tests/` runs the library on concrete values.
- `app/` is the command line: it performs what the library asks for and tells it
  what came of it.

The library in layers:

| modules | what they decide |
| --- | --- |
| `text`, `url`, `address`, `json` | the values the rest speaks of |
| `policy`, `cors` | what may be reached, and what may be read |
| `receipt`, `passage` | the order of the checks, and what is recorded |
| `fetch`, `wire`, `raw`, `decode` | what goes out, and what an answer comes to |
| `drive`, `channel`, `broker`, `resources` | whole exchanges, as dialogues |
| `markup`, `dom`, `frames`, `framing`, `forms`, `opening`, `scripts`, `running`, `pixels` | pages |
| `extract`, `session`, `command`, `place`, `identity` | the verbs and the command line |
