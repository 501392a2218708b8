# netbricks

Building blocks for network functions: message buffers, packet headers
from Ethernet up to TCP, UDP and ICMPv6 with NDP options, checksums,
batches of packets, and the per-connection state that reassembles byte
streams. Every function of the library carries a contract that Verus
proves, with one exception: `hex_decode` in `src/packets/ethernet.rs`,
the call into the `hex` crate that MAC address parsing makes, whose
contract (what `hex::decode` returns, read from that crate's source) is
trusted rather than proved.

## Layout

- `src/packets/`: the message buffer model (`mbuf`, `buffer`), raw and
  parsed packets, Ethernet, IPv4, IPv6 with the segment routing header,
  TCP, UDP, ICMPv6 and NDP, checksums and their incremental update.
- `src/packet_batch/`: batches of message buffers and their iteration.
- `src/state/`: the ring buffer, the reassembly buffer for data that
  arrives out of order, the TCP receive window, and the decisions of the
  per-flow stores' data paths (when to send, how far to grow a cache).
- `src/shared_state/`: the directory of shared structures.
- `src/testing/`: the field map behind the packet generators, and the
  builder of the IPv6 TCP packets they draw.
- `src/text.rs`: the decimal and hexadecimal text the `to_string`
  methods produce.
- `app/`: what stands outside the verified library: property-test
  generators, serde reading of MAC addresses, shared memory, fallible
  iteration of NDP options, and the per-flow mergeable stores.
- `tests/`: tests of the library.
