# bikechain

A registry of bicycle ownership kept on a blockchain. A transaction registers
a bike (by serial number) to a public key, or transfers it from the holder of
one key to the holder of another; each transaction is sealed into a block by
proof of work, and blocks are linked by the hash of their parent. Nodes
exchange blocks and transactions over a peer-to-peer network and answer a
small REST interface.

## Layout

- `src/` is the library, verified with Verus:
  - `blockchain/`: hashes, transactions, blocks, the chain of nodes (one per
    height, with the longest chain running down from the first block of the
    last node), the miner, and the DOT rendering of the chain.
  - `p2p/`: addresses as plain values, the packets, and the decisions of
    peer discovery (the shuffle protocol), which take the time and the open
    connections as arguments and say what to connect, close and send.
  - `backend/`: what a node does with a packet from a peer, a request from
    the front end and a freshly mined block, and the steps of the first
    download of the chain.
  - `rest/`: the meaning of the REST requests (reading a posted transaction,
    the queries by id or key), without the HTTP plumbing.
- `tests/` runs the library.
- `app/` is the program around it: the TCP network on tokio, the framing of
  packets with bincode, the REST server on rocket, Ed25519 signatures with
  rust_sodium, and the main loop that performs what the library decides.

The library calls sha2, rand and base64 through small trusted wrappers whose
contracts say what those crates do; the Ed25519 check of a signature is made
by the caller and handed to the library as a boolean.
