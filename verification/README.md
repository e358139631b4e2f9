# kapsule-dbus-mux

A D-Bus multiplexer for containers: clients inside a container connect to one
socket, and their messages go to the container's own bus or to the host's
session bus. Names owned in the container take priority over host names.

## Layout

- `src/` — the library, verified with Verus. Each public function states what
  it does in its contract; the laws of the library are public proof functions.
  - `routing` — which bus a destination goes to.
  - `name_queue` — RequestName/ReleaseName queues.
  - `match_rules` — parsing and matching of match rules, per-client rule sets,
    reference counts of rules installed on the buses.
  - `match_rule_laws` — what a rule of one quoted `path_namespace` or
    `argNpath` filter matches.
  - `serial_map`, `router` — correlation of forwarded calls with their replies.
  - `portal_request` — delivery of desktop-portal Response signals.
  - `auth` — the server side of the SASL EXTERNAL conversation.
  - `client` — unique names, message framing, bytes left over from
    authentication.
  - `message` — reading `zbus` messages; rewriting a message's serial.
  - `clock` — instants and durations: the clock is read in one place, and
    expiry is decided on the nanosecond counts of given instants.
  - `multiplexer` — the client registry and the answers to the bus's own
    methods.
- `app/` — the program: sockets, bus connections and the event loop, which
  perform what the library decides.
- `tests/` — tests of the library.

## Collections

The client registry is a `HashMap` keyed by client id and the waiters of a
name are a `VecDeque`, both used through vstd's specifications of them.
vstd's `HashMap` and `HashSet` specifications hold only for key types whose
hashing and equality vstd vouches for (integers among them). The maps and
sets keyed by strings (`NameMap`, `NameSet`, the routing table, the portal
requests, the match-rule reference counts) and the serial map, keyed by a
struct of this crate with derived `Hash`, are therefore vectors with each
key held once as their invariant; their views are the maps and sets they
stand for.
