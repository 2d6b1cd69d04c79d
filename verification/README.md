# openab_core

The rules behind a broker of coding agents, written and proved in Verus. The
library decides; it reads no clock, no file, no socket and no environment
variable of its own. What was read is handed to it as plain values, and what is
to be done comes back as plain values.

## Layout

- `src/acp`: one connection to an agent. What an agent may do under a write
  policy, the environment it is started with, what becomes of each message, and
  which responses belong to which callers. `stub_agent` is an agent that answers
  every prompt the same way.
- `src/control_plane`: delegating work between runtimes. `primary` tracks what
  this runtime asked of others, `executor` serves what others ask of it,
  `client` is the session with the control plane, `local` the socket for callers
  on the same machine.
- `src/admission.rs`, `src/agent_lease_heartbeat*.rs`,
  `src/autonomous_ingress.rs`, `src/completion_bridge.rs`: work that a scheduler
  assigns, from its admission to the report of its end.
- `src/commands.rs`: the slash commands of a conversation.
- `src/agy`, `src/ollama`: adapters that speak the agent protocol for a
  command-line tool and for a model server.
- `src/text.rs`, `src/encoding.rs`, `src/json.rs`, `src/value.rs`,
  `src/table.rs`, `src/labels.rs`, `src/seqs.rs`, `src/paths.rs`, `src/digest.rs`,
  `src/ids.rs`, `src/retry.rs`, `src/proto.rs`, `src/config.rs`: what the others build on.
- `app/`: the programs around the library: processes, sockets, files, databases
  and HTTP. A deployment that runs native work names its agent in
  `OPENAB_AGENT_PRODUCT`, and the file from which the agent reads its policy in
  `OPENAB_AGENT_POLICY_FILE`.
- `tests/`: the library on concrete values.

## How it is stated

Most types have a view. A function says over views, or over the fields of a type
that has none, what it returns and when. Work that alternates between decisions and waiting is a step function: it
takes what happened and gives what to do next, and the loop around it is in
`app/`. Where several callers wait for answers, each is known by a ticket.

Public proof functions whose names start with `law_` state what holds across
calls.

## What is not proved

A few functions call other crates, and their contracts are believed: the digest
of a text (`sha2`), JSON text (`serde_json`), fresh ids (`uuid`), random numbers
(`rand`), dates (`chrono`), shell words (`shell-words`), base64 (`base64`), and
from the standard library the lower case of a text, the quoted form of a path, the check of
UTF-8 and appending a character. Each says in its comment what is claimed.
