# Runnel

Runnel is a message broker: durable streams, independent consumers, shared
consumers that hand work out between named members, at-least-once delivery with
acknowledgements, leases and retry limits, dead-letter streams, and a replicated
log underneath.

The library in `src/` holds the rules of the broker. It is written in Rust with
Verus: every function states what it does, and Verus proves that it does so. The
program in `app/` is ordinary Rust around it: sockets, files, the consensus
engine, HTTP.

## Layout

- `state_machine`, `delivery`: what each command of the replicated log does to
  the streams, consumers and deliveries of a group, and what it answers.
- `delivery_laws`: what holds of deliveries whatever commands come: nothing is
  lost before it is acknowledged or given up, a key keeps its order, old tokens
  are refused, groups do not disturb each other.
- `replication_laws`: what holds over many commands: equal replicas stay equal,
  and a request that comes again after others is answered as it should be.
- `state_machine_store`, `state_machine_journal`, `log_store`: what is recorded
  of a state machine and of a log, and how both are recovered.
- `cluster_storage`, `storage`: what a data directory must hold before a node
  starts on it.
- `raft_group`, `group_manager`, `reconcile`, `forwarding`: the commands and
  answers of a replication group, how the groups of a node are found and opened,
  how a new stream comes to life, and how an operation finds the leader.
- `network`: what nodes say to each other, how it is framed, and which
  connections are kept.
- `protocol`, `base64`, `dispatch`, `connection`: the lines of clients, what the
  engine is asked for them and what clients are told.
- `observability`, `metrics_text`: what the server counts, and how it tells it.
- `engine`, `log_id`, `log_entry`, `naming`, `keyed`, `text`, `wire`: the values
  that all of these share.

Proof functions whose names begin with `law_` state what holds of several
functions together.

## What is not proved

A few calls leave the library: the texts of log identities and of storage errors
come from `openraft`, the time and the reading of bytes as text from the standard
library. Each has one wrapper, and its comment says what is taken for granted.

The consensus algorithm itself is `openraft`'s. Encoding values as JSON, reading
and writing files and sockets, waiting, and the formatting of floating-point
numbers are done in `app/`.

## Tests

`tests/` runs the library on concrete values: what was recorded is recovered,
what was refused says why, what was counted adds up, and whole conversations
between clients and a broker come out as they should.
