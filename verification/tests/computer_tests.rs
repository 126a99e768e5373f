use bit_vec::BitVec;
use rtl_computer::alu::ALU;
use rtl_computer::bitvecutils::bitvec_to_usize;
use rtl_computer::bus::{Bus, BusSelector};
use rtl_computer::clock::{Clock, ClockDriven};
use rtl_computer::computer::Computer;
use rtl_computer::control::control::ControlLine;
use rtl_computer::control::links::ControlLinks;
use rtl_computer::memory::memory::RAM;
use rtl_computer::memory::register::{RORegister, RWRegister};
use rtl_computer::pc::ProgramCounter;

const LDA: u8 = 0x10;
const ADD: u8 = 0x20;
const SUB: u8 = 0x30;
const MUL: u8 = 0x40;
const OUT: u8 = 0x50;
const HLT: u8 = 0xF0;

/// The `width` low bits of `value`, bit 0 first.
fn word(value: usize, width: usize) -> BitVec {
    let mut v = BitVec::new();
    for i in 0..width {
        v.push((value >> i) & 1 == 1);
    }
    v
}

/// A network on which `high` are asserted by one owner.
fn links_with(high: &[ControlLine]) -> ControlLinks {
    let mut links = ControlLinks::new();
    for line in high {
        links.add_endpoint(*line, "TEST".to_string());
        links.set_endpoint(*line, "TEST".to_string(), true);
    }
    links
}

/// A read-write register of `width` bits that holds `value`.
fn register(value: usize, width: usize) -> RWRegister {
    let mut bus = Bus::new();
    bus.write(&word(value, 8));
    let mut r = RWRegister::new(
        "R".to_string(),
        width,
        BusSelector::LSB,
        ControlLine::AI,
        ControlLine::AO,
    );
    r.on_clock_high(&links_with(&[ControlLine::AI]), &mut bus);
    r
}

/// A memory image with `program` from address 0 and `data` at the given
/// addresses.
fn image(program: &[u8], data: &[(usize, u8)]) -> Vec<u8> {
    let mut bytes = vec![0u8; 16];
    bytes[..program.len()].copy_from_slice(program);
    for (address, value) in data {
        bytes[*address] = *value;
    }
    bytes
}

fn run_to_halt(computer: &mut Computer) -> (usize, Clock) {
    let mut clock = Clock::new(2);
    assert!(clock.start());
    let pulses = computer.run(&mut clock, 10_000);
    (pulses, clock)
}

#[test]
fn load_add_output_halt() {
    let mut computer =
        Computer::new(image(&[LDA | 14, ADD | 15, OUT, HLT], &[(14, 0x07), (15, 0x05)]));
    let mut clock = Clock::new(2);
    assert!(clock.start());
    assert!(clock.is_running());
    let mut pulses = 0;
    let mut a_when_out_ran = None;
    while let Some(level) = clock.tick() {
        let out_step = computer.control_links().get_state(ControlLine::OI);
        computer.on_clock_high(level);
        pulses += 1;
        if level && !out_step && computer.control_links().get_state(ControlLine::OI) {
            a_when_out_ran = Some(computer.reg_a().read());
        }
        if computer.halted() {
            clock.stop();
        }
        assert!(pulses < 1000);
    }
    assert!(computer.halted());
    assert!(!clock.is_running());
    assert_eq!(bitvec_to_usize(&computer.reg_a().read()), 12);
    assert_eq!(computer.reg_a().read(), word(12, 8));
    assert_eq!(computer.reg_b().read(), word(5, 8));
    assert_eq!(computer.reg_out().read(), word(12, 8));
    assert_eq!(a_when_out_ran, Some(word(12, 8)));
    // LDA and ADD take 5 and 6 steps, OUT takes 4; HLT halts in the high
    // phase of its fourth step.
    assert_eq!(pulses, 2 * (5 + 6 + 4 + 3) + 1);
    assert_eq!(computer.pc().read(), word(4, 4));
}

#[test]
fn run_stops_the_clock_at_the_halt() {
    let mut computer =
        Computer::new(image(&[LDA | 14, ADD | 15, OUT, HLT], &[(14, 0x07), (15, 0x05)]));
    let (pulses, clock) = run_to_halt(&mut computer);
    assert_eq!(pulses, 37);
    assert!(computer.halted());
    assert!(!clock.is_running());
    assert_eq!(computer.reg_out().read(), word(12, 8));
    // A stopped clock gives no pulse.
    let mut clock = clock;
    assert_eq!(clock.tick(), None);
    assert_eq!(computer.run(&mut clock, 10), 0);
}

#[test]
fn run_ends_at_its_limit() {
    let mut computer = Computer::new(image(&[LDA | 14, OUT, HLT], &[(14, 0x2A)]));
    let mut clock = Clock::new(2);
    clock.start();
    assert_eq!(computer.run(&mut clock, 7), 7);
    assert!(!computer.halted());
    assert!(clock.is_running());
    // The next pulse is the low one of the fourth step.
    assert_eq!(clock.tick(), Some(false));
}

#[test]
fn subtract_and_output() {
    let mut computer =
        Computer::new(image(&[LDA | 14, SUB | 15, OUT, HLT], &[(14, 0x07), (15, 0x05)]));
    run_to_halt(&mut computer);
    assert_eq!(computer.reg_a().read(), word(2, 8));
    assert_eq!(computer.reg_out().read(), word(2, 8));
}

#[test]
fn subtract_below_zero_wraps() {
    let mut computer =
        Computer::new(image(&[LDA | 14, SUB | 15, OUT, HLT], &[(14, 0x05), (15, 0x07)]));
    run_to_halt(&mut computer);
    assert_eq!(computer.reg_out().read(), word(254, 8));
}

#[test]
fn add_past_the_word_wraps() {
    let mut computer =
        Computer::new(image(&[LDA | 14, ADD | 15, OUT, HLT], &[(14, 200), (15, 100)]));
    run_to_halt(&mut computer);
    assert_eq!(computer.reg_out().read(), word(44, 8));
}

#[test]
fn no_operation_and_reserved_and_unknown_take_the_fetch_steps_only() {
    let mut computer = Computer::new(image(&[0x00, MUL, 0x70, HLT], &[]));
    let (pulses, _) = run_to_halt(&mut computer);
    assert_eq!(pulses, 2 * (3 + 3 + 3 + 3) + 1);
    assert_eq!(computer.reg_a().read(), word(0, 8));
    assert_eq!(computer.pc().read(), word(4, 4));
}

#[test]
fn empty_image_is_all_no_operations() {
    let mut computer = Computer::new(vec![]);
    let mut clock = Clock::new(2);
    clock.start();
    // Sixteen instructions of three steps, and the counter wraps.
    assert_eq!(computer.run(&mut clock, 2 * 3 * 16), 96);
    assert!(!computer.halted());
    assert_eq!(computer.pc().read(), word(0, 4));
    for address in 0..16 {
        assert_eq!(computer.ram().word(address), word(0, 8));
    }
}

#[test]
fn image_longer_than_the_memory_is_cut() {
    let mut bytes = image(&[LDA | 15, HLT], &[(15, 0x99)]);
    bytes.extend_from_slice(&[0xFF; 40]);
    let mut computer = Computer::new(bytes);
    assert_eq!(computer.ram().len(), 16);
    assert_eq!(computer.ram().word(15), word(0x99, 8));
    assert_eq!(computer.ram().word(16), word(0, 8));
    run_to_halt(&mut computer);
    assert_eq!(computer.reg_a().read(), word(0x99, 8));
}

#[test]
fn fetch_steps_move_the_instruction_through_the_units() {
    let mut computer = Computer::new(image(&[LDA | 14, HLT], &[(14, 0x07)]));
    assert_eq!(computer.controller().sequencer().step(), 0);
    computer.on_clock_high(true);
    assert!(computer.control_links().get_state(ControlLine::CO));
    assert!(computer.control_links().get_state(ControlLine::MI));
    assert!(!computer.control_links().get_state(ControlLine::RO));
    assert_eq!(computer.mar().read(), word(0, 4));
    computer.on_clock_high(false);
    assert!(!computer.control_links().get_state(ControlLine::CO));
    assert_eq!(computer.controller().sequencer().step(), 1);
    computer.on_clock_high(true);
    assert_eq!(computer.bus().read(), word((LDA | 14) as usize, 8));
    assert_eq!(computer.ir().read(), word(1, 4));
    computer.on_clock_high(false);
    computer.on_clock_high(true);
    assert_eq!(computer.pc().read(), word(1, 4));
    computer.on_clock_high(false);
    assert_eq!(computer.controller().sequencer().step(), 3);
    computer.on_clock_high(true);
    assert_eq!(computer.mar().read(), word(14, 4));
    computer.on_clock_high(false);
    computer.on_clock_high(true);
    assert_eq!(computer.bus().read(), word(7, 8));
    assert_eq!(computer.reg_a().read(), word(7, 8));
    computer.on_clock_high(false);
    assert_eq!(computer.controller().sequencer().step(), 0);
}

#[test]
fn halt_from_outside_the_machine() {
    let mut computer = Computer::new(image(&[LDA | 14, OUT, HLT], &[(14, 0x2A)]));
    let mut clock = Clock::new(2);
    clock.start();
    computer.run(&mut clock, 4);
    assert!(!computer.halted());
    // An owner that never registered asserts nothing.
    computer.set_endpoint(ControlLine::HLT, "KEYBOARD".to_string(), true);
    assert!(!computer.halted());
    computer.add_endpoint(ControlLine::HLT, "KEYBOARD".to_string());
    assert!(!computer.halted());
    computer.set_endpoint(ControlLine::HLT, "KEYBOARD".to_string(), true);
    assert!(computer.halted());
    assert!(computer.control_links().get_state(ControlLine::HLT));
    assert_eq!(computer.run(&mut clock, 100), 0);
    assert!(!clock.is_running());
}

#[test]
fn clock_gives_pulses_in_pairs_while_it_runs() {
    let mut clock = Clock::new(4);
    assert_eq!(clock.frequency(), 4);
    assert!(!clock.is_running());
    assert_eq!(clock.tick(), None);
    assert!(clock.start());
    assert!(!clock.start());
    assert_eq!(clock.tick(), Some(true));
    assert!(!clock.start());
    assert_eq!(clock.tick(), Some(false));
    assert_eq!(clock.tick(), Some(true));
    clock.stop();
    assert!(!clock.is_running());
    assert_eq!(clock.tick(), None);
    assert!(clock.start());
    assert_eq!(clock.tick(), Some(true));
}

#[test]
fn clock_half_interval() {
    assert_eq!(Clock::new(1).half_interval_millis(), 500);
    assert_eq!(Clock::new(2).half_interval_millis(), 250);
    assert_eq!(Clock::new(3).half_interval_millis(), 166);
    assert_eq!(Clock::new(1000).half_interval_millis(), 0);
    assert_eq!(Clock::new(5000).half_interval_millis(), 0);
}

#[test]
fn register_latches_only_while_its_input_line_is_high() {
    let mut bus = Bus::new();
    bus.write(&word(0xA5, 8));
    let mut low = RORegister::new("L".to_string(), 4, BusSelector::LSB, ControlLine::MI);
    let mut high = RORegister::new("H".to_string(), 4, BusSelector::HSB, ControlLine::MI);
    low.on_clock_high(&links_with(&[ControlLine::OI]), &mut bus);
    assert_eq!(low.read(), word(0, 4));
    low.on_clock_high(&links_with(&[ControlLine::MI]), &mut bus);
    high.on_clock_high(&links_with(&[ControlLine::MI]), &mut bus);
    assert_eq!(low.read(), word(0x5, 4));
    assert_eq!(high.read(), word(0xA, 4));
    assert_eq!(bus.read(), word(0xA5, 8));
    assert_eq!(low.name(), "L");
}

#[test]
fn register_drives_the_bus_while_its_output_line_is_high() {
    let mut r = register(0x3C, 8);
    assert_eq!(r.read(), word(0x3C, 8));
    let mut bus = Bus::new();
    r.on_clock_high(&links_with(&[]), &mut bus);
    assert_eq!(bus.read(), word(0, 8));
    r.on_clock_high(&links_with(&[ControlLine::AO]), &mut bus);
    assert_eq!(bus.read(), word(0x3C, 8));
    // A narrow register is extended with cleared bits.
    let mut narrow = register(0xB, 4);
    bus.write(&word(0xFF, 8));
    narrow.on_clock_high(&links_with(&[ControlLine::AO]), &mut bus);
    assert_eq!(bus.read(), word(0x0B, 8));
}

#[test]
fn program_counter_counts_jumps_and_drives() {
    let mut pc = ProgramCounter::new();
    let mut bus = Bus::new();
    assert_eq!(pc.read(), word(0, 4));
    pc.on_clock_high(&links_with(&[ControlLine::CE]), &mut bus);
    pc.on_clock_high(&links_with(&[ControlLine::CE]), &mut bus);
    assert_eq!(pc.read(), word(2, 4));
    pc.on_clock_high(&links_with(&[ControlLine::CO]), &mut bus);
    assert_eq!(bus.read(), word(2, 8));
    bus.write(&word(0x7F, 8));
    pc.on_clock_high(&links_with(&[ControlLine::J]), &mut bus);
    assert_eq!(pc.read(), word(15, 4));
    pc.on_clock_high(&links_with(&[ControlLine::CE]), &mut bus);
    assert_eq!(pc.read(), word(0, 4));
    pc.on_clock_high(&links_with(&[]), &mut bus);
    assert_eq!(pc.read(), word(0, 4));
}

#[test]
fn memory_drives_and_latches_the_addressed_word() {
    let mut dump = BitVec::new();
    for byte in [0x11u8, 0x22, 0x33] {
        for i in 0..8 {
            dump.push((byte >> i) & 1 == 1);
        }
    }
    let mut ram = RAM::new(&dump);
    assert_eq!(ram.len(), 16);
    assert_eq!(ram.word(1), word(0x22, 8));
    assert_eq!(ram.word(3), word(0, 8));
    let mut bus = Bus::new();
    bus.write(&word(2, 8));
    let mut mar = RORegister::new("MAR".to_string(), 4, BusSelector::LSB, ControlLine::MI);
    mar.on_clock_high(&links_with(&[ControlLine::MI]), &mut bus);
    ram.on_clock_high(&links_with(&[ControlLine::RO]), &mut bus, &mar);
    assert_eq!(bus.read(), word(0x33, 8));
    bus.write(&word(0x5A, 8));
    ram.on_clock_high(&links_with(&[ControlLine::RI]), &mut bus, &mar);
    assert_eq!(ram.word(2), word(0x5A, 8));
    assert_eq!(ram.word(1), word(0x22, 8));
    ram.on_clock_high(&links_with(&[]), &mut bus, &mar);
    assert_eq!(bus.read(), word(0x5A, 8));
}

#[test]
fn memory_has_no_word_past_its_size() {
    let mut ram = RAM::new(&BitVec::from_elem(128, true));
    let mut bus = Bus::new();
    bus.write(&word(0x1F, 8));
    let mut mar = RORegister::new("MAR".to_string(), 5, BusSelector::LSB, ControlLine::MI);
    mar.on_clock_high(&links_with(&[ControlLine::MI]), &mut bus);
    assert_eq!(mar.read(), word(31, 5));
    ram.on_clock_high(&links_with(&[ControlLine::RI]), &mut bus, &mar);
    for address in 0..16 {
        assert_eq!(ram.word(address), word(0xFF, 8));
    }
    ram.on_clock_high(&links_with(&[ControlLine::RO]), &mut bus, &mar);
    assert_eq!(bus.read(), word(0, 8));
}

#[test]
fn adder_drives_sum_and_difference() {
    let alu = ALU::new();
    let mut bus = Bus::new();
    alu.add(&register(200, 8), &register(100, 8), &mut bus);
    assert_eq!(bus.read(), word(44, 8));
    alu.add(&register(3, 8), &register(4, 8), &mut bus);
    assert_eq!(bus.read(), word(7, 8));
    alu.sub(&register(9, 8), &register(4, 8), &mut bus);
    assert_eq!(bus.read(), word(5, 8));
    alu.sub(&register(4, 8), &register(9, 8), &mut bus);
    assert_eq!(bus.read(), word(251, 8));
    alu.sub(&register(4, 8), &register(4, 8), &mut bus);
    assert_eq!(bus.read(), word(0, 8));
    alu.sub(&register(0x12, 8), &register(0x3, 4), &mut bus);
    assert_eq!(bus.read(), word(0x0F, 8));
}

#[test]
fn registers_of_the_computer_have_their_names() {
    let mut computer = Computer::new(image(&[LDA | 14, HLT], &[(14, 0x07)]));
    run_to_halt(&mut computer);
    assert_eq!(computer.reg_a().name(), "A Register");
    assert_eq!(computer.reg_b().name(), "B Register");
    assert_eq!(computer.mar().name(), "Mem. Address Reg.");
    assert_eq!(computer.ir().name(), "Instruction Reg.");
    assert_eq!(computer.reg_out().name(), "Output Register");
}
