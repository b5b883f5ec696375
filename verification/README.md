# shiguredo_container

A client library for running throw-away containers in tests, against the
Docker Engine API (Linux) and the Apple container service (macOS).

The library in `src/` is written in Verus: every function carries a
contract, and Verus proves the code against it. It holds what the clients
compute and decide:

- `ports`, `mounts`, `healthcheck`, `wait`, `copy`: the request model.
- `docker_api`, `docker_ops`, `inspect`: request paths and bodies for the
  Docker Engine API, and what its answers mean.
- `multiplex`, `log_buffer`, `http_decode`: the framed log stream, the
  bounded log buffers and their readers, and HTTP/1.1 response decoding
  (interim responses, body framing and limits).
- `tar`: ustar archives for copying files in and out of containers.
- `json`, `registry_auth`, `image_config`, `container_cfg`, `cfg_json`,
  `xpc`: JSON readers, registry credentials, OCI image resolution, and the
  container configuration of the Apple service and its JSON payload.
- `exec`, `client`, `error`: exec results and their readers' join, the
  client's small state machines, and the error types.

Laws that relate several functions are public proof functions next to
them (for example `tar::lemma_single_file_round_trip`,
`log_buffer::lemma_last_n_compose`, `multiplex::lemma_demux_chunking`,
`multiplex::lemma_feed_in_any_pieces`, `log_buffer::lemma_appends_keep_the_last`).

`app/` is the plain Rust around it: sockets, threads, files, the
environment, and the impls of outside traits. `tests/` runs the library
on concrete values.
