# GDB remote protocol and instruction-flow core, verified

The protocol and classification logic of a debugger's remote backend,
written in Verus with contracts over mathematical models.

- `src/gdbproto.rs` — RSP framing: checksums, `$payload#cc` packets, binary
  escaping, and the incremental stream decoder (a state machine stepped byte
  by byte). Laws: unescape undoes escape, escaped data avoids the framing
  bytes, a decoder turns an encoded packet back into its payload, and feeding
  a stream in pieces equals feeding it whole.
- `src/gdb_remote.rs` — stop replies (`S`/`T` with `thread`, `swbreak`,
  `hwbreak`, `watch`/`rwatch`/`awatch`), hex payloads and hex numbers, the
  `PacketSize` feature; the error type.
- `src/packets.rs` — request payloads for each operation (`Hg`, `m`, `M`,
  `p`, `P`, `vCont`, `Z`/`z`, `qXfer`), the checks on their replies, and the
  steps of reads that take several round trips (memory in chunks, target
  description in pieces). Laws: a read asks for the bytes right after those
  it has, and its data is the replies' payloads joined in order.
- `src/session.rs` — what the client remembers between socket reads and
  writes: pending decoded items, replies put aside, no-ack mode, and whether
  a resume is in flight.
- `src/disasm.rs` — per-architecture flow classification of printed
  mnemonics and the turning of the disassembler's raw output into an
  instruction.
- `src/text.rs` — character helpers and the few calls into std string
  conversion that the parsers rest on.
- `app/` — the TCP client (`GdbRemote`) and the FFI call into the
  disassembler. The client owns the socket and the clock: it sends what the
  library's functions build, hands each reply to the library's step
  functions, and repeats while they say more is to come.
