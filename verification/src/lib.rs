//! Verified core of a GDB remote-protocol client and of instruction
//! flow classification for a debugger.
use vstd::prelude::*;

pub mod gdbproto;
pub mod text;
pub mod disasm;
pub mod gdb_remote;
pub mod packets;
pub mod session;

verus! {

} // verus!
