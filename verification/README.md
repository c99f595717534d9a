# hull

A single-node SDN controller: a daemon (`hulld`) that keeps switches, routers
and their addresses in a SQLite store and programs an eBPF/TC dataplane and
OpenFlow rules, and a client (`hull`) that sends it requests over a Unix socket.

## Layout

- `src/` is the library, verified with Verus. It holds the logic with its
  contracts and laws:
  - `cidr`, `ipnet`, `text`, `mac`, `bytes`: IPv4 networks, address and MAC
    text formats, big-endian byte encodings;
  - `openflow`: the OpenFlow 1.5 messages the controller builds and reads, and
    the handshake state machine of a connection;
  - `dataplane`: the packet decisions of the eBPF program (MAC learning, ARP
    and echo responders, longest-prefix routing) over a model of its maps;
  - `database`, `switches`, `routers`, `daemon`, `cli`, `config`, `utils`:
    address allocation, rule planning, request handling decisions, argument
    interpretation and paths.
- `app/` is the program around it: argument parsing with clap, the socket
  server and client, the SQLite store, the aya loader, `ip` commands and the
  async OpenFlow transport. It hands the library plain values and acts on
  what comes back.
- `tests/` runs the library on concrete values.
