# acp-pipe

A pipe to long-lived command-line agents. The program is named after the tool
whose agent it keeps running: for the tool `t` it is installed as `t-pipe`. Under
the package's own name it serves no tool, unless `CLAUDE_PIPE_TOOL` names one.

- **Request/reply.** `up` starts one persistent agent and listens on a socket;
  `send` hands it a message and prints the reply; `status` and `down` look after
  it. Turns are serialized, and a turn that timed out is read off the stream
  before the next one begins, so replies never slip.
- **ACP transport.** `serve` owns a warm pool of ACP agents. `attach` takes the
  lease on an agent and prints the path of its data socket, on which raw ACP is
  relayed byte for byte; `list`, `spawn`, `detach`, `kill` and `events` are the
  control plane, on a socket of its own.

## Layout

- `src/` is the library, verified with Verus: framing and inspection of ACP
  (`acp`, `json`), per-session queues, fair forwarding and bounds (`queue`,
  `drain`, `relay`), the lease (`lease`), the turn machine (`worker`, `daemon`),
  the pool and the control plane (`supervisor`, `control`, `recipe`), messages
  and paths (`protocol`, `client`, `names`), and helpers (`table`, `text`).
- `fairness`, `delivery` and `alignment` hold the laws: nothing is lost,
  duplicated or reordered within a session; no session starves another; pressure
  and loss are never silent; a takeover orphans no id; replies stay aligned with
  requests.
- `app/` is the program around it: the command line, sockets, processes and
  files.
- `tests/` runs the library.

What is not proved is how `serde_json` reads and quotes JSON; `src/json.rs`
says what is taken from it.
