# dustchain

A small account-based blockchain for local experiments: fee policy,
transfers, account balances, blocks and chains, a checksummed binary file
format, a bounded mempool, and a line-based peer protocol for local nodes.

- `src/` is the library, written in Verus: every function carries a contract
  and is verified, and the laws the library keeps (wire-format round trips,
  the mempool's limits over any run of calls, snapshot and configuration
  round trips, mined blocks validating and a mined chain passing its check,
  the peer protocol reading back what it writes) are proof functions there.
- `app/` is the `dust` command-line program around it: files, sockets, the
  clock and argument parsing.
- `tests/` exercises the library on concrete values.
