# wakecomputer

Wake-on-LAN and remote shutdown for machines on a local network: a server that
wakes machines with magic packets and asks their agents to shut them down, and
an agent that runs on each machine.

`src/` is the verified library, in Verus:

- `text`, `numbers`: character-level text operations (fields, lines, trimming,
  ASCII case folding, search), decimal rendering and hexadecimal parsing, each
  specified over `Seq<char>`.
- `config`: the configuration types, their defaults, machine lookup and the
  checks of MAC addresses and Wake-on-LAN settings.
- `wol`: MAC addresses as bytes and the magic packet.
- `agent`: how the agent answers a request, the response it writes, the
  shutdown command per operating system.
- `agent_client`: the server's side of a talk with an agent, one step per
  observed event, with the work (connect, ping, send, receive) left to the caller.
- `routes`: token checks and the answers of the server's endpoints.
- `exchange`: proofs that the agent serves the requests the server builds.

`app/` holds the programs: sockets, files, processes, YAML and JSON, axum and
tokio. Started as `wakecomputer-agent` the binary runs the agent; otherwise the
server.
