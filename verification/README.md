# pyde_node

The logic of a Pyde node, written in Verus and proved against its contracts.

`src/` is the library. Nothing in it reads a socket, a file or a clock on its
own account, save for the slot clock and the rate limiter, which read the
monotonic clock through trusted wrappers.

| module | what it holds |
| --- | --- |
| `startup` | checks of the configuration, listen addresses, the slot anchor, committee and key files |
| `node` | what the main loop decides: certified blocks, votes, proposals, compact blocks, books |
| `events` | where messages of the network go, whom they blame and what they call for |
| `buffers` | blocks, bodies, bundles and shares that wait |
| `sync`, `serve`, `sync_laws` | catching up with the network, and serving peers that do |
| `state_manager`, `state_laws` | write-ahead cache, pending writes, undo logs, snapshots |
| `receipt_store`, `mempool` | receipts by slot, and pending transactions |
| `rpc`, `rpc_views` | requests and answers of the JSON-RPC interface |
| `rate_limit`, `slot_clock` | the token buckets, and slots by the clock |
| `peer_book`, `dashboard` | saved peers, and the lines of the terminal dashboard |
| `keymap`, `hexcodec`, `text`, `words` | keys, hex, text and little-endian numbers |

Public proof functions named `law_..` state what holds across several functions.

`tests/` runs the library. `app/` is the node around it: the main loop, the
JSON-RPC server, files and the terminal. It runs on services that `app/ports.rs`
names: network, consensus engine, ledger, encrypted mempool, state tree and keys.
