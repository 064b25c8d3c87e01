# sp_nlb

A layer 2/3/4 passthrough network load balancer whose core is verified with
Verus.

- `src/` is the verified library:
  - `addr` — hardware and IP addresses, the flow 5-tuple and its packing
    into the flow-table key (proved injective);
  - `state` — backends, round-robin selection, the sticky flow table, the ARP
    cache and the ageing of both tables;
  - `passthrough` — classification of TCP/IPv4 frames, the rewrite towards a
    backend (Ethernet addresses, IPv4 destination, TCP port, checksums) and
    the per-frame decision of the data plane;
  - `arp` — parsing ARP replies, building ARP requests;
  - `health` — the health checker's targets and the recording of a probe;
  - `wire` — header field access through `pnet`'s packet views, stated
    over bytes;
  - `clock` — the monotonic clock that stamps table entries;
  - `laws` — properties spanning several operations (sticky sessions, round
    robin, ARP read-after-write, ageing, forwarding after ARP resolution).
- `app/` is the process around it: tokio tasks, pnet datalink channels,
  the TCP health probe, logging.
- `tests/` exercise the library on concrete frames and states.
