# Glyph anchor

A verified core for the Glyph anchor server: a bootstrap and relay node with a
blind store-and-forward vault for peers that are offline.

`src/` is the library. Its functions carry contracts that Verus proves.

| Module | What it holds |
|---|---|
| `network` | the messages of the vault protocol and its error codes |
| `keys` | the order of vault keys, and which of them belong to a recipient |
| `crypto` | token encryption, hashes, hexadecimal and base64 text |
| `tables` | the database tables inside a write transaction |
| `storage` | the vault: store, fetch, push tokens, pruning |
| `vault_laws` | what holds of the vault across operations |
| `records` | the concurrent maps of addresses, peers and public keys |
| `shield` | limits on connections per address and requests per peer |
| `shield_laws` | what holds of the shield across calls |
| `anchor` | what each network event leads to |
| `webhook` | what is sent to the push gateway, and when |
| `config` | the configuration, from the environment |
| `startup` | the identity file, the place of a damaged database, pruning jitter |

`tables`, `records` and a few functions of `crypto`, `config`, `startup` and
`webhook` call other crates. Each such call has a contract of its own that is
taken on trust; its comment says what is claimed.

`app/` is the server around the library: the peer-to-peer stack, the database
file, the push gateway and the command line.
