# rex

Hierarchical state machines, verified with Verus.

A program consists of state machines, each of a *kind*, and of processors of
notifications. State machines stand in trees: a machine that changes its state
signals that to the machine above it. They set and cancel timeouts, and take
packets from a network and send packets to it.

The library in `src/` holds the data and the decisions, each with a contract
that Verus proves:

| module | what it holds |
| --- | --- |
| `kind`, `state_id`, `base58` | kinds and states of machines, and their ids |
| `tree`, `tree_laws` | the mathematical model of a state hierarchy, and its laws |
| `node` | state trees, and the cursor that rewrites them |
| `queue`, `queue_laws`, `signal` | the queue with two priorities, its laws, and the signals in it |
| `time`, `timeout`, `timeout_laws` | the ledger of timeouts, and its laws |
| `storage`, `storage_laws` | where trees are kept and for how long, and what updates leave alone |
| `manager`, `manager_laws` | state machines, their context and their dispatch |
| `notification` | topics, and who receives what |
| `ingress` | the routes of packets |
| `builder` | putting it all together |
| `lists` | lemmas on sequences |

The library neither locks nor waits. What has to be woken or sent is handed
back to the caller. The crate in `app/` runs the library in tasks of tokio: it
holds the locks, the channels and the loops.

`tests/` runs the library on concrete values.
