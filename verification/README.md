# tsdb

A small time-series database node. It accepts InfluxDB line protocol over
HTTP, appends accepted points to a write-ahead log, files them into one
segment per UTC day, and replicates the log to peers discovered by gossip.

- `src/` is the verified library: line splitting and decimal text,
  line-protocol outcomes, the ingest reply, configuration defaults, merging and
  the documented sample file, segment naming, the peer and offset tables, and
  the per-peer replication decisions (whom to push to, what to send, how the
  offset moves, what the log records).
- `app/` is the server around it: command line, files, the write-ahead log,
  HTTP, gossip, and the round schedule (push to all peers, save the offsets,
  wait five seconds).
- `tests/` runs the library on concrete inputs.
