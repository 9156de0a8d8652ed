# udp

UDP for IPv4 (RFC 768) and IPv6 (RFC 8200), the RFC 1071 Internet checksum and
UDP options (RFC 9868), written in Verus: every function carries a contract over
a mathematical model of the wire format, and Verus proves each one.

- `src/lib.rs`: the checksum (`checksum`, `Checksum`), the UDP `Header`, and the
  model of one's-complement sums (`fold16`, `word_sum`, `be_words`).
- `src/wire.rs`: network-order integers (`be_value`, `be_bytes`) and their laws.
- `src/datagram.rs`: header plus payload.
- `src/v4.rs`, `src/v6.rs`: pseudo-headers; `v4::datagram`, `v6::datagram`
  make and check datagrams.
- `src/option.rs` and `src/option/`: the option format and each option kind.
- `src/surplus.rs`: the surplus area, its options and its option checksum.

Laws are public proof functions named `lemma_*`: read-back of what is written,
`make` followed by `check` succeeding, and checksums that verify to zero.
