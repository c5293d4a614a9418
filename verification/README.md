# easytier

The decisions of a node of a peer-to-peer mesh VPN, as a library whose behaviour is stated in
contracts and proved with Verus.

- `src/` is the library. What it decides, it decides from plain values: addresses, times, flags,
  bytes. Where a decision goes on over several steps, there is a type for the run with one method
  for each step.
- `app/` runs these decisions against the machine: sockets, interfaces, names, processes, clocks.
- `tests/` runs the library on concrete values.

## Where to find what

| Subject | Modules |
| --- | --- |
| State of a node, advertised features, trusted keys | `global_ctx`, `config`, `trusted_keys` |
| Loops back to the node, gated endpoints, guarded addresses | `loop_suppression`, `underlay_breaker`, `underlay_guard`, `network` |
| Order and stealth of transports | `transport_priority`, `stealth_registry` |
| Connecting directly | `connector`, `direct_candidates`, `direct_plan`, `direct`, `manual`, `dns` |
| Punching holes | `hole_punch`, `udp_hole_punch`, `tcp_hole_punch`, `punch_storm` |
| When to try again | `retry_backoff`, `p2p_endpoint_retry`, `blacklist` |
| Proxied TCP connections | `tcp_proxy`, `packet`, `proxy_failover`, `proxy_prepare`, `proxy_status`, `prepared_store`, `transport_health` |
| The managed relay process | `gost` |

Public proof functions whose names begin with `law_` state what holds across several functions or
for every state. Functions of other crates are called in small functions whose doc comments say
what is taken for granted of them.
