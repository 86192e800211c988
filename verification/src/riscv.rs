//! What the RISC-V machine gives where it has nothing behind it yet: no
//! clock and no PCI bus.
use vstd::prelude::*;

verus! {

/// What a read of PCI configuration space gives where no device answers.
pub const NO_DEVICE: u32 = 0xFFFF_FFFF;

/// The time of the machine's own clock. The machine has none: the time
/// stands at zero.
pub fn cur_timestamp() -> (stamp: u64)
    ensures
        stamp == 0,
{
    0
}

/// Reads the word at `addr` of PCI configuration space. The machine has no
/// PCI bus, so no device answers: every read gives all ones.
pub fn read(addr: u32) -> (word: u32)
    ensures
        word == NO_DEVICE,
{
    NO_DEVICE
}

} // verus!
