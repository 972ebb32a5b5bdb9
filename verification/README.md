# volant_kafka

The wire side of a broker's Kafka listener, written in Rust and verified with Verus.

`src/` is the library. Every public function in it has a contract and is proved
to meet it:

- `wire` is the model: what is left of an input (`Src`) and what an output holds (`Out`), with
  the primitive fields of the protocol. `buffer`, `codec` and `message` read and write them.
- `compress`, `records`, `consumer_protocol` are record sets and the consumer protocol.
  `roundtrip` holds the laws: what is written can be read back.
- `api` and `handler` are the API keys, their versions, and the way of a request.
- `produce`, `fetch`, `fetch_response`, `list_offsets`, `delete_records`, `membership`,
  `offsets`, `group_admin`, `metadata`, `transactions`, `acl_api`, `topic_admin`,
  `reassignment`, `configs`, `credentials` and `cluster_admin` are the APIs. Each has a reader
  for its request, the decisions between the request and the answers of the broker, and a
  writer for its response.
- `fetch_session`, `stored_session` and `session_manager` are incremental fetch sessions, their
  mirrors on other brokers, and what is kept of them on disk.
- `sasl` is authentication up to where the store of credentials has to be asked.

The calls into other crates (`bytes`, `flate2`, `snap`, `lz4_flex`, `zstd`, `crc32fast`,
`crc32c`, `base64`) stand in small functions whose contracts are trusted; they are in
`buffer`, `compress`, `records`, `sasl` and `text`.

`app/` is the listener around it: sockets, files, the clock and the environment, and the
`Broker` trait for the logs, groups and credentials behind it.
