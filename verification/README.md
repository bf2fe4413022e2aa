# dls3

A daemon that makes the objects of an S3 bucket appear as files to programs
that run with a preloaded hook. The hook asks the daemon, over a UNIX socket,
to open and close objects; the daemon downloads them into a backing store of
sparse files, keeps closed ones as cache, and evicts cached files when the disk
is full.

Layout:

- `src/` is the verified library:
  - `protocol.rs`: the wire format of the messages between hook and daemon
    (open, close and authentication updates), a
    step-by-step reader of client messages and the encoder of server messages;
  - `store.rs`: the bookkeeping of opened and cached objects, eviction, the
    per-connection record of open objects and the synchronisation with the
    bucket listing;
  - `backing_file.rs`: the life of one backing file (sparse, downloading,
    complete, cached);
  - `table.rs`: the string-keyed table the bookkeeping is kept in;
  - `config.rs`: the configuration and its defaults, and the usage message;
  - `bucket.rs`: a handle on the configured bucket.
- `app/` is the daemon itself: command-line parsing, the sockets and files,
  the S3 requests, and the tasks that drive the library.
- `tests/` exercises the library.
