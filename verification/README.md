# codemode

Run MCP tools by writing code instead of calling them one by one.

Handing a model every tool that a server exposes is expensive: the definitions sit in its
context, and every intermediate result travels through it. Here the model gets three tools
instead (discover the servers, find a server's tools, execute code) and writes a program
that does the orchestration. The program runs in an embedded JavaScript engine that can
touch neither the network nor the file system; the only way out is the generated
per-server modules, and the allowlist behind them is enforced on every call.

## Layout

`src/` is the part that decides, verified with Verus. It performs no I/O.

| module | what it holds |
| --- | --- |
| `source`, `runtime` | the allowlist; the bridge: which calls go through, what comes back |
| `boa`, `convert`, `logs` | one execution, step by step; vetting its result; its console output |
| `modules` | the module generated for a server |
| `events` | timers, and what the event loop waits for |
| `codemode`, `exposure`, `local`, `config` | what is exposed, listed once; how a configuration becomes an engine; scheduling |
| `mcp`, `server` | downstream servers and their results; the three advertised tools |
| `subprocess` | the protocol between a worker process and its parent |
| `json`, `text`, `time`, `types`, `error` | the data the others speak of |

Beside the functions stand the laws: public proof functions, named `law_...`, that state
what holds across several of them. What is trusted rather than proved is said where it
stands: the functions marked `external_body` and the `assume_specification` items, in
`json`, `text` and `time`, and the declaration of a path and its `Clone` in `subprocess`.

`app/` drives the library: it holds the engine's contexts, the connections, the processes
and the command line (`codemode-mcp serve`, `codemode-mcp tools`). Its `lib.rs` offers the
same engine for embedding.

`tests/` runs the library, in `engine.rs` against the real JavaScript engine.
