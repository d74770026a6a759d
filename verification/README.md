# xdp_dp

An overlay dataplane for a hypervisor, verified with Verus. Guests live on tap interfaces, the underlay is IPv6, and overlay traffic is IP-in-IPv6 (inner protocol 4 for IPv4, 41 for IPv6). Every forwarding decision is a lookup in a table.

`src/` is the verified library. It works on plain values: a frame is a buffer with room at both ends, the tables are maps in memory, and the time comes in as a number.

| Module | What |
|---|---|
| `programs`, `egress`, `ingress`, `v6`, `tc` | What becomes of a frame: from a guest, from the uplink, on a traffic-control hook. |
| `arp_nd`, `dhcp4`, `dhcp6` | The responders that answer in the datapath. |
| `conntrack`, `conntrack_gc`, `network_nat`, `vip`, `lb`, `maglev`, `firewall`, `meter`, `encap`, `translate` | The services a packet passes through. |
| `control`, `grpc`, `programming` | The control plane: what requests ask for, which table changes they make, and what those mean to packets. |
| `args`, `loader`, `inspect` | The daemon's arguments, load-time table sizes, and the packet inspector. |
| `types`, `table`, `tables`, `frame`, `bytes`, `parse`, `csum`, `verdict` | Records, tables, buffers, and the notation that contracts use. |

Public proof functions named `law_*` state what holds across operations: checksums stay valid under translation, decapsulation undoes encapsulation, the replies to a flow that left through network NAT reach its guest, packets to a load balancer reach a backend, an interface that is taken back or deleted leaves nothing behind, the firewall does what its list of rules says, Maglev tables are full and even, and more.

`app/` is the daemon around the library: the command line, kernel programs and maps, device lookup, and the handlers of the control-plane service. The server that calls the handlers is generated from the service's protocol file and is not part of it. The kernel object is a separate artifact, given by path.
