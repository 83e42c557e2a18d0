# nyrun

A process manager with a built-in reverse proxy. It starts binaries and OCI images,
restarts them when they crash, keeps their logs, confines them, routes HTTP requests to
them, serves static directories, gets certificates from Let's Encrypt, and can be
reached from the cloud.

## Layout

- `src/` is the library. It decides everything: each function takes what was read and
  says what is to be done, and its contract is proved with Verus.
  - `text`, `number`, `path`, `json`, `assoc`: strings, decimals, paths, JSON members and
    a map from names to values.
  - `protocol`, `config`, `cli`, `client`: requests and answers, the frames they travel
    in, the configuration of a process, the command line and what is printed.
  - `process`, `sandbox`, `oci`, `state`, `metrics`: the managed processes, what they may
    do, the images they come from, what is saved of them, what is counted.
  - `proxy`, `tls`, `acme`: routes, the answers of the proxy, certificates and how they
    are issued.
  - `server`, `daemon`, `cloud`: how requests change the daemon, what it does around
    them, and the connection to the cloud.
- `app/` is the program around it: sockets, files, child processes, the HTTP server and
  the registry client. It reads, asks the library and performs the answer.
- `tests/` runs the library on concrete values.

The functions marked `external_body` in `src/` call other crates. Their doc comments say
what is taken for granted of those crates.
