# sui_replay

Replays transactions that a Sui network has executed, and compares the outcome of each with
the one that is on the chain.

The library in `src/` makes all decisions and is verified with Verus. It never waits: a function
that needs an answer of a full node returns the request, and is called again with the reply.

- `types`, `error`, `text`, `struct_tag`, `event`: plain values and how they are read.
- `listing`, `storage`: the objects that a replay has at hand.
- `request`, `download`: what is asked of a node, when it is asked again, and what is kept.
- `local_exec`, `protocol`, `packages`, `init`, `epoch`: the history of protocol versions, the versions of
  the system packages, and where epochs begin and end.
- `inputs`, `setup`: getting everything that a transaction reads.
- `replay`, `transaction`, `certificate`, `checkpoints`, `sandbox`: executing transactions and
  judging the outcome.
- `resolver`: reading objects on behalf of the execution engine.

`app/` puts the requests, runs the execution engine and sets up validators. `tests/` holds the
tests of the library.
