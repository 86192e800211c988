//! The high-precision event timer: a counter that only goes up, and
//! comparators that raise an interrupt when the counter reaches them.
use vstd::prelude::*;
use crate::interrupts::IRQHandle;
use crate::interrupts::InterruptTable;
use crate::interrupts::bind_gsi;

verus! {

/// The number of 64-bit words in the register block.
pub const WORDS: usize = 0x100;

/// Register numbers. Register `r` is word `2 * r` of the block.
pub const REG_CAPS_ID: usize = 0x0;

pub const REG_CONFIG: usize = 0x1;

pub const REG_ISR: usize = 0x2;

pub const REG_MAIN_CTR: usize = 0xF;

pub const REG_TIMER0: usize = 0x10;

/// The interrupt line that the timer is wired to.
pub const TIMER_LINE: usize = 2;

/// The distance of one deadline from the next, in ticks of the counter.
pub const DEADLINE_TICKS: u64 = 100000;

/// What a comparator's configuration register is set to: the interrupt
/// line from bit 9 up, level triggered (bit 1), interrupt enabled (bit 2).
pub const COMPARATOR_CONFIG: u64 = 0x406;

/// What the period of the counter, in femtoseconds, is divided into to get
/// `ticks_per_ms`.
pub const PERIOD_SCALE: u64 = 1000000000000000;

/// The size of a page of memory.
pub const PAGE_SIZE: u64 = 0x1000;

/// The tag of an address in memory space.
pub const ASID_MEMORY: u8 = 0;

/// The register block of the device, as the words that it holds.
pub struct RegisterFile {
    words: Vec<u64>,
}

impl RegisterFile {
    /// The words of the block.
    pub closed spec fn view(&self) -> Seq<u64> {
        self.words@
    }

    /// The block has all its words.
    pub open spec fn wf(&self) -> bool {
        self@.len() == WORDS
    }

    /// Register `reg` of the block.
    pub open spec fn reg(&self, reg: int) -> u64 {
        self@[2 * reg]
    }

    /// A block of zeroes.
    pub fn new() -> (regs: RegisterFile)
        ensures
            regs.wf(),
            forall|i: int| 0 <= i < WORDS ==> regs@[i] == 0,
    {
        let mut words: Vec<u64> = Vec::new();
        let mut i: usize = 0;
        while i < WORDS
            invariant
                i <= WORDS,
                words@.len() == i,
                forall|j: int| 0 <= j < i ==> words@[j] == 0,
            decreases WORDS - i,
        {
            words.push(0);
            i = i + 1;
        }
        RegisterFile { words }
    }

    /// Reads word `index`.
    pub fn read(&self, index: usize) -> (value: u64)
        requires
            self.wf(),
            index < WORDS,
        ensures
            value == self@[index as int],
    {
        self.words[index]
    }

    /// Sets word `index`, as the device itself does when its counter moves
    /// or it raises a status bit.
    pub fn write(&mut self, index: usize, value: u64)
        requires
            old(self).wf(),
            index < WORDS,
        ensures
            final(self)@ == old(self)@.update(index as int, value),
    {
        self.words.set(index, value);
    }

    /// A write by the CPU to word `index`: the status register loses the
    /// bits that are written as one, and any other word takes the value.
    pub fn store(&mut self, index: usize, value: u64)
        requires
            old(self).wf(),
            index < WORDS,
        ensures
            final(self)@ == old(self)@.update(
                index as int,
                stored(index as int, old(self)@[index as int], value),
            ),
    {
        if index == 2 * REG_ISR {
            let held = self.words[index];
            self.words.set(index, held & !value);
        } else {
            self.words.set(index, value);
        }
    }
}

/// What word `index` holds after the CPU has written `value` to it, if it
/// held `held` before.
pub open spec fn stored(index: int, held: u64, value: u64) -> u64 {
    if index == 2 * REG_ISR {
        held & !value
    } else {
        value
    }
}

/// An address in one of the machine's address spaces, as the firmware
/// describes it.
pub struct Gas {
    pub asid: u8,
    pub bit_width: u8,
    pub bit_ofs: u8,
    pub access_size: u8,
    pub address: u64,
}

/// The firmware's description of the timer.
pub struct AcpiHpet {
    pub hw_rev_id: u8,
    pub flags: u8,
    pub pci_vendor: u16,
    pub addr: Gas,
    pub hpet_num: u8,
    pub mintick: u16,
    pub page_protection: u8,
}

/// One byte to write to an I/O port.
pub struct PortWrite {
    pub port: u16,
    pub value: u8,
}

/// What has to be done to the machine before the timer can be made: one
/// page at `address` is mapped for reading and writing under `name`, and
/// the port writes are made in order.
pub struct TimerSetup {
    pub address: u64,
    pub pages: usize,
    pub name: &'static str,
    pub port_writes: Vec<PortWrite>,
}

/// The timer.
pub struct HPET {
    mapping_handle: RegisterFile,
    irq_handle: IRQHandle,
    period: u64,
}

/// The description is one that the timer can be set up from: the registers
/// are in memory space, at the start of a page.
pub open spec fn usable(info: AcpiHpet) -> bool {
    info.addr.asid == ASID_MEMORY && info.addr.address % PAGE_SIZE == 0
}

/// The writes that switch the legacy interval timer off: a mode word to its
/// command port for each of the four values of the channel field.
pub open spec fn legacy_timer_off() -> Seq<(u16, u8)> {
    seq![(0x43u16, 0x30u8), (0x43u16, 0xB0u8), (0x43u16, 0x30u8), (0x43u16, 0xB0u8)]
}

/// The ticks that make one unit of the timestamp, for a counter of this
/// period: `PERIOD_SCALE` over the period.
pub open spec fn ticks_per_ms_of(period: u64) -> int {
    PERIOD_SCALE as int / period as int
}

/// The timestamp that a counter of this period shows when it stands at
/// `counter`.
pub open spec fn timestamp_of(counter: u64, period: u64) -> int {
    counter as int / ticks_per_ms_of(period)
}

/// The word of the comparator's configuration register.
pub open spec fn comparator_word(comparator: int) -> int {
    2 * (REG_TIMER0 + 2 * comparator)
}

/// First half of bringing the timer up: decides from the firmware's
/// description whether there is a timer to bring up, and says what the
/// machine has to do first. Without a description, or with one that is not
/// usable, there is no timer and nothing to do.
pub fn init(table: Option<AcpiHpet>) -> (setup: Option<TimerSetup>)
    ensures
        setup is Some <==> table is Some && usable(table->0),
        setup matches Some(s) ==> {
            &&& s.address == table->0.addr.address
            &&& s.pages == 1
            &&& s.name == "HPET"
            &&& s.port_writes@.len() == 4
            &&& forall|i: int|
                0 <= i < 4 ==> (#[trigger] s.port_writes@[i].port, s.port_writes@[i].value)
                    == legacy_timer_off()[i]
        },
{
    let info = match table {
        None => {
            return None;
        },
        Some(info) => info,
    };
    if info.addr.asid != ASID_MEMORY || info.addr.address % PAGE_SIZE != 0 {
        return None;
    }
    let mut port_writes: Vec<PortWrite> = Vec::new();
    port_writes.push(PortWrite { port: 0x43, value: 0x30 });
    port_writes.push(PortWrite { port: 0x43, value: 0xB0 });
    port_writes.push(PortWrite { port: 0x43, value: 0x30 });
    port_writes.push(PortWrite { port: 0x43, value: 0xB0 });
    Some(TimerSetup { address: info.addr.address, pages: 1, name: "HPET", port_writes })
}

impl HPET {
    /// The register block.
    pub closed spec fn regs(&self) -> RegisterFile {
        self.mapping_handle
    }

    /// The period of the counter in femtoseconds, as read at creation.
    pub closed spec fn period(&self) -> u64 {
        self.period
    }

    /// The binding of the timer's interrupt.
    pub closed spec fn irq_handle(&self) -> IRQHandle {
        self.irq_handle
    }

    /// The number of comparators that the capabilities register announces.
    pub open spec fn comparators(&self) -> int {
        ((self.regs().reg(REG_CAPS_ID as int) >> 8) & 0x1F) as int
    }

    /// The timer has its register block, and a period that fits the half
    /// register it is read from.
    pub open spec fn wf(&self) -> bool {
        self.regs().wf() && self.period() <= u32::MAX
    }

    /// Makes the timer from its register block: switches the counter on
    /// (bit 0 of the configuration register) and reads the period from the
    /// upper half of the capabilities register.
    pub fn new(mapping: RegisterFile) -> (timer: HPET)
        requires
            mapping.wf(),
        ensures
            timer.wf(),
            timer.regs()@ == mapping@.update(
                2 * REG_CONFIG as int,
                mapping.reg(REG_CONFIG as int) | 1,
            ),
            timer.period() == mapping.reg(REG_CAPS_ID as int) >> 32,
            timer.irq_handle().line() is None,
    {
        let mut rv = HPET { mapping_handle: mapping, irq_handle: IRQHandle::unbound(), period: 1 };
        let config = rv.read_reg(REG_CONFIG);
        rv.write_reg(REG_CONFIG, config | 1);
        let caps = rv.read_reg(REG_CAPS_ID);
        assert(caps >> 32 <= 0xFFFF_FFFF) by (bit_vector);
        rv.period = caps >> 32;
        rv
    }

    /// Binds the timer's interrupt line.
    pub fn bind_irq(&mut self, lines: &mut InterruptTable, info: usize)
        requires
            old(lines).wf(),
            old(lines)@[TIMER_LINE as int] is None,
        ensures
            final(lines).wf(),
            final(lines)@ == old(lines)@.update(TIMER_LINE as int, Some(info)),
            final(self).irq_handle().line() == Some(TIMER_LINE),
            final(self).regs() == old(self).regs(),
            final(self).period() == old(self).period(),
    {
        match bind_gsi(lines, TIMER_LINE, info) {
            Ok(handle) => {
                self.irq_handle = handle;
            },
            Err(_) => {},
        }
    }

    /// The ticks of the counter that make one unit of the timestamp:
    /// `PERIOD_SCALE` over the period.
    pub fn ticks_per_ms(&self) -> (ticks: u64)
        requires
            self.period() != 0,
        ensures
            ticks == ticks_per_ms_of(self.period()),
    {
        PERIOD_SCALE / self.period
    }

    /// The register block, for reading.
    pub fn registers(&self) -> (regs: &RegisterFile)
        ensures
            *regs == self.regs(),
    {
        &self.mapping_handle
    }

    /// The register block, for the device's side: the counter goes up and
    /// the status bits come and go through this loan.
    pub fn registers_mut(&mut self) -> (regs: &mut RegisterFile)
        ensures
            *regs == old(self).regs(),
            final(self).regs() == *final(regs),
            final(self).period() == old(self).period(),
            final(self).irq_handle() == old(self).irq_handle(),
    {
        &mut self.mapping_handle
    }

    /// The period of the counter in femtoseconds.
    pub fn get_period(&self) -> (period: u64)
        ensures
            period == self.period(),
    {
        self.period
    }

    /// The interrupt handler of the timer: clears the status bits that are
    /// set, by writing the status register back, and programs comparator 0
    /// for the next deadline.
    pub fn irq(&mut self)
        requires
            old(self).wf(),
            old(self).comparators() > 0,
        ensures
            final(self).wf(),
            final(self).period() == old(self).period(),
            final(self).irq_handle() == old(self).irq_handle(),
            final(self).regs()@ == old(self).regs()@.update(2 * REG_ISR as int, 0).update(
                comparator_word(0) + 2,
                next_deadline(old(self).regs().reg(REG_MAIN_CTR as int)),
            ).update(comparator_word(0), COMPARATOR_CONFIG),
    {
        let status = self.read_reg(REG_ISR);
        assert(status & !status == 0) by (bit_vector);
        self.write_reg(REG_ISR, status);
        let now = self.current();
        self.oneshot(0, now.wrapping_add(DEADLINE_TICKS));
    }

    fn read_reg(&self, reg: usize) -> (value: u64)
        requires
            self.wf(),
            reg < 0x80,
        ensures
            value == self.regs().reg(reg as int),
    {
        self.mapping_handle.read(reg * 2)
    }

    fn write_reg(&mut self, reg: usize, value: u64)
        requires
            old(self).wf(),
            reg < 0x80,
        ensures
            final(self).wf(),
            final(self).regs()@ == old(self).regs()@.update(
                2 * reg as int,
                stored(2 * reg as int, old(self).regs().reg(reg as int), value),
            ),
            final(self).period() == old(self).period(),
            final(self).irq_handle() == old(self).irq_handle(),
    {
        self.mapping_handle.store(reg * 2, value);
    }

    /// The number of comparators.
    pub fn num_comparitors(&self) -> (n: usize)
        requires
            self.wf(),
        ensures
            n == self.comparators(),
            n < 32,
    {
        let caps = self.read_reg(REG_CAPS_ID);
        let n = (caps >> 8) & 0x1F;
        assert((caps >> 8) & 0x1F < 32) by (bit_vector);
        n as usize
    }

    /// The counter as it stands.
    pub fn current(&self) -> (counter: u64)
        requires
            self.wf(),
        ensures
            counter == self.regs().reg(REG_MAIN_CTR as int),
    {
        self.read_reg(REG_MAIN_CTR)
    }

    /// Programs `comparitor` to fire once, when the counter reaches
    /// `value`: writes the value register, and after it the configuration
    /// register.
    pub fn oneshot(&mut self, comparitor: usize, value: u64)
        requires
            old(self).wf(),
            comparitor < old(self).comparators(),
        ensures
            final(self).wf(),
            final(self).period() == old(self).period(),
            final(self).irq_handle() == old(self).irq_handle(),
            final(self).regs()@ == old(self).regs()@.update(
                comparator_word(comparitor as int) + 2,
                value,
            ).update(comparator_word(comparitor as int), COMPARATOR_CONFIG),
    {
        let ghost caps = self.regs().reg(REG_CAPS_ID as int);
        assert((caps >> 8) & 0x1F < 32) by (bit_vector);
        let comp_reg = REG_TIMER0 + comparitor * 2;
        self.write_reg(comp_reg + 1, value);
        self.write_reg(comp_reg, COMPARATOR_CONFIG);
    }
}

/// Second half of bringing the timer up, when the register block is
/// mapped: makes the timer, binds its interrupt line with `info`, and
/// programs comparator 0 for the first deadline.
pub fn start(mapping: RegisterFile, lines: &mut InterruptTable, info: usize) -> (timer: HPET)
    requires
        mapping.wf(),
        (mapping.reg(REG_CAPS_ID as int) >> 8) & 0x1F > 0,
        old(lines).wf(),
        old(lines)@[TIMER_LINE as int] is None,
    ensures
        timer.wf(),
        timer.period() == mapping.reg(REG_CAPS_ID as int) >> 32,
        timer.irq_handle().line() == Some(TIMER_LINE),
        final(lines).wf(),
        final(lines)@ == old(lines)@.update(TIMER_LINE as int, Some(info)),
        timer.regs()@ == mapping@.update(
            2 * REG_CONFIG as int,
            mapping.reg(REG_CONFIG as int) | 1,
        ).update(
            comparator_word(0) + 2,
            next_deadline(mapping.reg(REG_MAIN_CTR as int)),
        ).update(comparator_word(0), COMPARATOR_CONFIG),
{
    let mut timer = HPET::new(mapping);
    timer.bind_irq(lines, info);
    let now = timer.current();
    timer.oneshot(0, now.wrapping_add(DEADLINE_TICKS));
    timer
}

/// The current timestamp: the counter in units of `ticks_per_ms` ticks,
/// rounded down; zero as long as there is no timer.
pub fn get_timestamp(timer: &Option<HPET>) -> (stamp: u64)
    requires
        timer matches Some(t) ==> t.wf() && t.period() != 0,
    ensures
        stamp == match timer {
            Some(t) => timestamp_of(t.regs().reg(REG_MAIN_CTR as int), t.period()),
            None => 0,
        },
{
    match timer {
        Some(t) => {
            let ticks = t.ticks_per_ms();
            proof {
                lemma_ticks_positive(t.period());
            }
            t.current() / ticks
        },
        None => 0,
    }
}

/// A period that fits its half register gives at least one tick to the
/// unit of the timestamp.
pub proof fn lemma_ticks_positive(period: u64)
    requires
        0 < period <= u32::MAX,
    ensures
        ticks_per_ms_of(period) >= 1,
{
    vstd::arithmetic::div_mod::lemma_div_is_ordered_by_denominator(
        PERIOD_SCALE as int,
        period as int,
        u32::MAX as int,
    );
}

/// The timestamp never goes back: as long as the counter does not, a later
/// reading gives no smaller timestamp than an earlier one, and any reading
/// gives at least the zero that is shown without a timer.
pub proof fn lemma_timestamp_monotonic(earlier: u64, later: u64, period: u64)
    requires
        earlier <= later,
        0 < period <= u32::MAX,
    ensures
        0 <= timestamp_of(earlier, period) <= timestamp_of(later, period),
{
    lemma_ticks_positive(period);
    vstd::arithmetic::div_mod::lemma_div_is_ordered(
        earlier as int,
        later as int,
        ticks_per_ms_of(period),
    );
}

/// The deadline that follows a counter value: `DEADLINE_TICKS` later, around
/// the end of the counter's range.
pub open spec fn next_deadline(counter: u64) -> u64 {
    if counter as int + DEADLINE_TICKS as int > u64::MAX as int {
        (counter as int + DEADLINE_TICKS as int - u64::MAX as int - 1) as u64
    } else {
        (counter + DEADLINE_TICKS) as u64
    }
}

} // verus!
