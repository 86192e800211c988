//! The concurrency core of a small monolithic kernel, as a sequential model,
//! with some of the kernel's clients.
//!
//! Hardware interrupts, sleeping threads and cooperative waiters meet in the
//! core. Every operation takes the state it works on by exclusive
//! reference, so a run of the kernel is one sequence of calls, and each
//! contract says what a call does to that state. Work that only hardware or
//! a scheduler can do (putting a thread to sleep, touching a device) is
//! returned to the caller as an action.
//!
//! The core:
//! - `grc`: reference-counted shared cells;
//! - `threads`: sleep objects;
//! - `sync`: the spinlock and the interrupt hold;
//! - `waiter`: the waiter protocol and the wait on a list of waiters;
//! - `flag`: the latching event flag;
//! - `interrupts`: the machine's interrupt lines;
//! - `hpet`: the timer;
//! - `irqs`: the interrupt fabric and its worker.
//!
//! The clients:
//! - `console`, `trap` and `riscv`: debug output, fault reports, and what the
//!   RISC-V machine has no device for;
//! - `vfs`, `fat` and `ntfs`: planning the reads of two filesystems, and the
//!   record cache of one of them;
//! - `storage`: the registry of volumes;
//! - `usb`: root-hub port features;
//! - `utf16`: strings of 16-bit units;
//! - `syscalls`: the form of system calls;
//! - `array`: blocks of storage for user programs.
pub mod grc;
pub mod threads;
pub mod sync;
pub mod waiter;
pub mod flag;
pub mod interrupts;
pub mod hpet;
pub mod irqs;
pub mod console;
pub mod trap;
pub mod riscv;
pub mod vfs;
pub mod fat;
pub mod ntfs;
pub mod storage;
pub mod usb;
pub mod utf16;
pub mod syscalls;
pub mod array;
