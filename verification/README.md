# dot_marketplace

A decentralised marketplace, verified with Verus.

- `src/marketplace.rs`: projects of up to five milestones. Publishers pay
  milestone costs into escrow, workers bid by staking the cost, the publisher
  accepts a bid, approves the work and rates the worker, the worker rates the
  publisher, and closing a milestone pays its escrow to the worker.
- `src/tasking.rs`, `src/task.rs`: single tasks with proposals, a staked bid
  amount, revisions and ratings on both sides.
- `src/user.rs`: user profiles, running rating averages and tags.
- `src/chat.rs`: one-to-one messages with a single reply.
- `src/ledger.rs`: the balances that the operations move funds between; every
  transfer keeps the total.
- `src/milestone_id.rs`, `src/utils.rs`, `src/table.rs`, `src/dispatch.rs`:
  milestone identifiers, rating and shuffling arithmetic, finite maps, and
  callers and refusals.

Every operation that a signed caller invokes states exactly what it returns
and how the state and the balances change, and that a refused operation
changes nothing. The helper that collects a publisher's milestone costs keeps
the payments made before a refused one, as its contract states.
`app/` holds copies of the plain data types that carry the SCALE and serde
encodings.
