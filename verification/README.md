# o_lang

The rules of the Ostadix-lang tool chain, as a library whose behaviour is stated
in contracts and proved by Verus: what an operation may touch and which
operations conflict, how source files are ordered and linked into one program
and taken apart again, which programs an authority lets run on which node, and
what the tools around them decide.

- `src/` is the library.
  - Effects and dispatch: `resource`, `effects`, `environment`, `ir`,
    `dispatch_model`, `capability`.
  - Linking: `escape`, `blocks`, `files`, `imports`, `graph`, `order`, `plan`, `link`,
    `document`, `unlink`, `paths`, `components`, `rules`, `collect`, `link_options`.
  - Compiling: `codegen`, `codegen_text`, `runtime_layout`, `lockfile`,
    `compile_options`, `hypergraph`, `bundle`, `gather`, `embed`, `launch`, `rootfs`.
  - Nodes and sessions: `connection`, `resolve`, `node_list`, `authority`,
    `mint`, `session`, `session_args`, `session_run`.
  - The device: `process`, `cpu`, `device`, `doctor`.
  - Receipts: `receipt`, `receipt_text`, `receipt_graph`, `quoting`.
  - `text` and `sorting` hold what all of them share, and `outside` the calls that
    leave the library, each with what is relied on of it.
- `tests/` runs the library.
- `app/` is the executable around it: arguments, files, processes and kernel
  calls. It plans what the library decides and performs it. Parsing and
  evaluating programs, lifting projects and talking to nodes are done by the
  evaluator, the project runtime and the hosted client, which are not part of
  this package.

Laws that relate several functions are public proof functions, beside the
functions that they speak of.
