# epoch_client

A client for Epoch, an archive of Solana account states. The library holds the
client's decisions and is verified with Verus; it performs no I/O.

- `src/accounts.rs`: account records and addresses
- `src/registry.rs`: searching the account types that the decoder knows
- `src/decode.rs`: decoding archive rows, one outside reply at a time
- `src/order.rs`: ordering decoded accounts by slot
- `src/archive.rs`: what the archive's replies come to
- `src/rpc.rs`: requests to an RPC node and what its replies come to
- `app/`: the connections, which carry out the requests and hand in the replies

What is taken on trust is declared where it is used: `str::to_lowercase` in
`src/registry.rs`, and `Memcmp::new_base58_encoded` in `src/rpc.rs`.
