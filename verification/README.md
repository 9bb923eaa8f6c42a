# Atomic Mesh

A deterministic, event-sourced trading engine. Every state change is an event with a global
sequence number, and replaying the same events always gives the same state.

`src/` is the library, verified with Verus. `app/` is the node around it: files, sockets, the
exchange's REST and WebSocket interfaces, the dashboard, and the foreign interface of the native
quoting engine. `tests/` run the library on concrete values.

| Part | Modules |
|---|---|
| Values and their binary form | `types`, `event`, `codec`, `wire`, `snapshot`, `text`, `num`, `json` |
| Clocks and queues | `clock`, `ring`, `sequencer` |
| Orders | `execution`, `trading`, `ledger`, `risk`, `router`, `book` |
| Strategies | `strategy`, `market_maker`, `microprice`, `inventory`, `toxicity`, `hotpath` |
| Log, replay and recovery | `log`, `player`, `replay`, `recovery`, `backtest`, `synthetic` |
| The mesh | `node`, `protocol`, `replication` |
| Exchanges | `binance`, `gateway`, `connector`, `normalizer`, `feed`, `symbols` |
| Around the node | `config`, `dashboard`, `metrics`, `error` |

Prices are integers in pipettes and quantities integers in base units. The library holds no
floating point: where the exchange or a report needs decimals, `app/` converts.

Public proof functions state what holds of several functions together: that replaying from a
snapshot gives the state of replaying everything (`execution::replay_from_snapshot`), that bytes
written are read back (`codec::decode_encode`, `log::log_round_trip`), that an accepted order
breaks no limit (`risk::accepted_orders_keep_limits`), that a node whose state is not that of a
peer takes no more events or orders (`replication::divergence_halts`), and others next to the
functions they are about.
