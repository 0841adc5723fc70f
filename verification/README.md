# kiki

The logic of a device that runs agents: the agent loop and its capability gate,
memory, the tool hub, brokered network access, settings and secrets, accounts,
sessions and their migration, and packages. All of `src/` is verified with Verus.

| module         | what it holds                                                    |
|----------------|------------------------------------------------------------------|
| `agent`        | the turn loop, the capability gate, the policy of the node       |
| `memory`       | the four layers of memory, their queries and their wire form     |
| `mcp`          | the tool hub, both ends of its socket, the loader, the parser    |
| `net`          | who may reach which host, and how much may come back             |
| `config`       | sealed secrets, recovery codes, the key store, settings sync     |
| `oauth`        | handles, tokens and their renewal                                |
| `orchestrator` | sessions, their scheduling, the event bus, distillation          |
| `fleet`        | enrolment, presence, moving sessions between nodes               |
| `daemon`       | the lock screen, recall, the first-boot setup                    |
| `pkg`          | installing, updating and removing artifacts                      |

Whatever waits or touches the world is a state machine in `src/`: a step takes an
event and gives the next action. `app/` performs the actions (files, sockets, HTTP,
processes, clocks) and holds the `kpkg` program.

What is believed without proof are the `external_body` functions, each a call into
another crate or the standard library; its doc comment says what is claimed.
