# minicache

A memcached-style cache answered by an XDP packet program, with the logic
verified by Verus.

- `src/packet.rs`: the Ethernet/IPv4/UDP header layout, the IPv4 header
  checksum and the rewrite that turns a request frame into its reply, with the
  laws relating them.
- `src/xdp.rs`: the per-frame decisions of the packet program (GET, SET or
  pass) and the action returned to the kernel.
- `src/cache.rs`, `src/protocol.rs`: the cache entries and the memcached
  binary-protocol structures.
- `src/server.rs`: the options of the user-space server and its reading of
  incoming datagrams.
- `app/`: the user-space server (loading and attaching the program, the UDP
  listener) and the packet program's glue to the kernel maps.
