//! Faults on RISC-V: what the cause register says, in words.
use vstd::prelude::*;
use crate::console::hex_text;
use crate::console::puth;
use crate::console::puts;
use vstd::string::StringSliceAdditionalSpecFns;

verus! {

/// The text for a cause that stands for nothing yet.
pub const RESERVED_STANDARD: &'static str = "/Reserved for future standard use/";

/// The text for a cause that is left to the platform.
pub const RESERVED_CUSTOM: &'static str = "/Reserved for future custom use/";

/// The reason of a trap, by the number in the cause register.
pub open spec fn reason_of(cause: u64) -> &'static str {
    if cause == 0 {
        "Instruction address misaligned"
    } else if cause == 1 {
        "Instruction access fault"
    } else if cause == 2 {
        "Illegal instruction"
    } else if cause == 3 {
        "Breakpoint"
    } else if cause == 4 {
        "Load address misaligned"
    } else if cause == 5 {
        "Load access fault"
    } else if cause == 6 {
        "Store/AMO address misaligned"
    } else if cause == 7 {
        "Store/AMO access fault"
    } else if cause == 8 {
        "Environment call from U-mode"
    } else if cause == 9 {
        "Environment call from S-mode"
    } else if cause == 12 {
        "Instruction page fault"
    } else if cause == 13 {
        "Load page fault"
    } else if cause == 15 {
        "Store/AMO page fault"
    } else if 24 <= cause <= 31 || 48 <= cause <= 63 {
        RESERVED_CUSTOM
    } else {
        RESERVED_STANDARD
    }
}

/// The reason of a trap, by the number in the cause register.
pub fn trap_reason(cause: u64) -> (reason: &'static str)
    ensures
        reason == reason_of(cause),
{
    match cause {
        0 => "Instruction address misaligned",
        1 => "Instruction access fault",
        2 => "Illegal instruction",
        3 => "Breakpoint",
        4 => "Load address misaligned",
        5 => "Load access fault",
        6 => "Store/AMO address misaligned",
        7 => "Store/AMO access fault",
        8 => "Environment call from U-mode",
        9 => "Environment call from S-mode",
        10 => RESERVED_STANDARD,
        11 => RESERVED_STANDARD,
        12 => "Instruction page fault",
        13 => "Load page fault",
        15 => "Store/AMO page fault",
        16..=23 => RESERVED_STANDARD,
        24..=31 => RESERVED_CUSTOM,
        32..=47 => RESERVED_STANDARD,
        48..=63 => RESERVED_CUSTOM,
        _ => RESERVED_STANDARD,
    }
}

/// The line that is logged for a fault: the cause in hexadecimal, the
/// reason, the address of the faulting instruction and the trap value.
pub open spec fn fault_text(cause: u64, pc: u64, value: u64) -> Seq<u8> {
    "FAULT: ".spec_bytes() + hex_text(cause) + " ".spec_bytes() + reason_of(cause).spec_bytes()
        + " at ".spec_bytes() + hex_text(pc) + " stval=".spec_bytes() + hex_text(value)
}

/// Appends `more` to `out`.
fn append(out: &mut Vec<u8>, more: &Vec<u8>)
    ensures
        final(out)@ == old(out)@ + more@,
{
    let mut i: usize = 0;
    while i < more.len()
        invariant
            i <= more@.len(),
            out@ == old(out)@ + more@.take(i as int),
        decreases more@.len() - i,
    {
        out.push(more[i]);
        i = i + 1;
    }
}

/// The line to log for a fault, from the three registers that describe it.
/// The caller logs the line and halts the CPU.
pub fn trap_vector_rs(cause: u64, pc: u64, value: u64) -> (line: Vec<u8>)
    ensures
        line@ == fault_text(cause, pc, value),
{
    let mut line = puts("FAULT: ");
    append(&mut line, &puth(cause));
    append(&mut line, &puts(" "));
    append(&mut line, &puts(trap_reason(cause)));
    append(&mut line, &puts(" at "));
    append(&mut line, &puth(pc));
    append(&mut line, &puts(" stval="));
    append(&mut line, &puth(value));
    line
}

} // verus!
