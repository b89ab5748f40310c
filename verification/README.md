# autofill

A decoration for nodes of a replicated log. It watches for gaps in the node's
copy of the log and fills them, so that the entries of later rounds can be
applied.

- `src/autofill.rs`: the decoration, from an event of the node to the appends
  that it leads to.
- `src/model.rs`: the mathematical model that the contracts speak of.
- `src/run.rs`: how appends start and end, one after the other.
- `src/laws.rs`: what holds of gap filling as a whole.
- `src/queue.rs`: the queue of gaps, most urgent first.
- `src/appends.rs`: the appends that are under way, in a `FuturesUnordered`.
- `src/wake.rs`, `src/time.rs`: timers, durations and the clock.
- `src/config.rs`: how gaps are to be filled.
- `src/node.rs`, `src/builder.rs`: nodes, and how to set up one that fills gaps.
- `app/`: the decoration with logging, and how to set up a node with it.
