use kernel_core::hpet::{
    get_timestamp, init, start, AcpiHpet, Gas, RegisterFile, COMPARATOR_CONFIG, HPET,
};
use kernel_core::interrupts::InterruptTable;

const CAPS: usize = 0;
const CONFIG: usize = 2;
const ISR: usize = 4;
const MAIN: usize = 0x1E;
const TIMER0_CONFIG: usize = 0x20;
const TIMER0_VALUE: usize = 0x22;

fn table(asid: u8, address: u64) -> AcpiHpet {
    AcpiHpet {
        hw_rev_id: 1,
        flags: 0,
        pci_vendor: 0x8086,
        addr: Gas { asid, bit_width: 64, bit_ofs: 0, access_size: 0, address },
        hpet_num: 0,
        mintick: 128,
        page_protection: 0,
    }
}

fn block(period: u64, comparators: u64, counter: u64) -> RegisterFile {
    let mut regs = RegisterFile::new();
    regs.write(CAPS, (period << 32) | (comparators << 8));
    regs.write(MAIN, counter);
    regs
}

#[test]
fn no_table_no_timer() {
    assert!(init(None).is_none());
}

#[test]
fn table_outside_memory_space_is_not_usable() {
    assert!(init(Some(table(1, 0xFED0_0000))).is_none());
}

#[test]
fn unaligned_table_is_not_usable() {
    assert!(init(Some(table(0, 0xFED0_0008))).is_none());
    assert!(init(Some(table(0, 0xFED0_0FFF))).is_none());
}

#[test]
fn usable_table_gives_the_setup() {
    let setup = init(Some(table(0, 0xFED0_0000))).unwrap();
    assert_eq!(setup.address, 0xFED0_0000);
    assert_eq!(setup.pages, 1);
    assert_eq!(setup.name, "HPET");
    let writes: Vec<(u16, u8)> = setup.port_writes.iter().map(|w| (w.port, w.value)).collect();
    assert_eq!(writes, vec![(0x43, 0x30), (0x43, 0xB0), (0x43, 0x30), (0x43, 0xB0)]);
    assert!(init(Some(table(0, 0))).is_some());
}

#[test]
fn new_switches_the_counter_on_and_reads_the_period() {
    let mut regs = block(10_000_000, 3, 0);
    regs.write(CONFIG, 0x2);
    let timer = HPET::new(regs);
    assert_eq!(timer.get_period(), 10_000_000);
    assert_eq!(timer.registers().read(CONFIG), 0x3);
    assert_eq!(timer.num_comparitors(), 3);
    assert_eq!(timer.current(), 0);
}

#[test]
fn ticks_per_ms_is_the_scale_over_the_period() {
    assert_eq!(HPET::new(block(1_000_000, 1, 0)).ticks_per_ms(), 1_000_000_000);
    assert_eq!(HPET::new(block(69_841_279, 1, 0)).ticks_per_ms(), 14_318_179);
    assert_eq!(HPET::new(block(1, 1, 0)).ticks_per_ms(), 1_000_000_000_000_000);
    assert_eq!(HPET::new(block(0xFFFF_FFFF, 1, 0)).ticks_per_ms(), 232_830);
}

#[test]
fn timestamp_without_timer_is_zero() {
    assert_eq!(get_timestamp(&None), 0);
}

#[test]
fn timer_tick() {
    // A counter of 1000 ticks in a microsecond has a period of a million
    // femtoseconds.
    let mut timer = Some(HPET::new(block(1_000_000, 1, 0)));
    let ticks = timer.as_ref().unwrap().ticks_per_ms();
    assert_eq!(get_timestamp(&timer), 0);
    let mut counter: u64 = 0;
    let mut last = 0;
    for _ in 0..5000 {
        counter += 1_000_000;
        timer.as_mut().unwrap().registers_mut().write(MAIN, counter);
        let stamp = get_timestamp(&timer);
        assert_eq!(stamp, counter / ticks);
        assert!(stamp >= last);
        assert!(stamp - last <= 1);
        last = stamp;
    }
    assert_eq!(last, 5);
}

#[test]
fn timestamp_never_goes_back() {
    let mut timer = Some(HPET::new(block(69_841_279, 1, 0)));
    let mut last = 0;
    for counter in [0u64, 1, 14_318_178, 14_318_179, 14_318_180, 1 << 40, u64::MAX] {
        timer.as_mut().unwrap().registers_mut().write(MAIN, counter);
        let stamp = get_timestamp(&timer);
        assert!(stamp >= last);
        last = stamp;
    }
    assert_eq!(last, u64::MAX / 14_318_179);
}

#[test]
fn oneshot_writes_value_and_configuration() {
    let mut timer = HPET::new(block(1_000_000, 3, 0));
    timer.oneshot(0, 12345);
    assert_eq!(timer.registers().read(TIMER0_VALUE), 12345);
    assert_eq!(timer.registers().read(TIMER0_CONFIG), COMPARATOR_CONFIG);
    assert_eq!(COMPARATOR_CONFIG, (2 << 9) | (1 << 2) | (1 << 1));
    timer.oneshot(2, 777);
    assert_eq!(timer.registers().read(TIMER0_VALUE + 8), 777);
    assert_eq!(timer.registers().read(TIMER0_CONFIG + 8), COMPARATOR_CONFIG);
    // Comparator 0 is as it was.
    assert_eq!(timer.registers().read(TIMER0_VALUE), 12345);
}

#[test]
fn interrupt_programs_the_next_deadline() {
    let mut regs = block(1_000_000, 1, 5_000);
    regs.write(ISR, 1);
    let mut timer = HPET::new(regs);
    timer.irq();
    assert_eq!(timer.registers().read(TIMER0_VALUE), 105_000);
    assert_eq!(timer.registers().read(TIMER0_CONFIG), COMPARATOR_CONFIG);
    // The status bit that was set is cleared.
    assert_eq!(timer.registers().read(ISR), 0);
    // Around the end of the counter's range.
    timer.registers_mut().write(MAIN, u64::MAX - 10);
    timer.irq();
    assert_eq!(timer.registers().read(TIMER0_VALUE), 99_989);
}

#[test]
fn status_register_loses_the_bits_written_as_one() {
    let mut regs = RegisterFile::new();
    regs.write(ISR, 0b1011);
    regs.store(ISR, 0b0010);
    assert_eq!(regs.read(ISR), 0b1001);
    regs.store(ISR, 0);
    assert_eq!(regs.read(ISR), 0b1001);
    regs.store(ISR, u64::MAX);
    assert_eq!(regs.read(ISR), 0);
    // Any other register takes what is written.
    regs.store(CONFIG, 0b0110);
    regs.store(CONFIG, 0b0001);
    assert_eq!(regs.read(CONFIG), 0b0001);
}

#[test]
fn start_binds_the_line_and_arms_the_first_deadline() {
    let mut lines = InterruptTable::new();
    let timer = start(block(1_000_000, 2, 40), &mut lines, 0xABCD);
    assert_eq!(lines.cookie(2), Some(0xABCD));
    assert_eq!(lines.cookie(3), None);
    assert_eq!(timer.registers().read(CONFIG), 1);
    assert_eq!(timer.registers().read(TIMER0_VALUE), 100_040);
    assert_eq!(timer.registers().read(TIMER0_CONFIG), COMPARATOR_CONFIG);
    assert_eq!(timer.get_period(), 1_000_000);
}
