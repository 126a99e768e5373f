use bit_vec::BitVec;
use rtl_computer::bus::{Bus, BusSelector};
use rtl_computer::clock::ClockDriven;
use rtl_computer::control::control::ControlLine;
use rtl_computer::control::links::ControlLinks;
use rtl_computer::control::sequencer::Sequencer;
use rtl_computer::decoder::{Decoder, OpCode};
use rtl_computer::memory::register::RWRegister;

/// A bit vector from its digits, the bit at index 0 first.
fn bits(text: &str) -> BitVec {
    let mut v = BitVec::new();
    for c in text.chars() {
        v.push(c == '1');
    }
    v
}

/// An instruction register that holds the opcode field `field`.
fn instruction_register(field: &str) -> RWRegister {
    let mut links = ControlLinks::new();
    links.add_endpoint(ControlLine::II, "TEST".to_string());
    links.set_endpoint(ControlLine::II, "TEST".to_string(), true);
    let mut bus = Bus::new();
    let mut word = bits("0000");
    for c in field.chars() {
        word.push(c == '1');
    }
    bus.write(&word);
    let mut ir = RWRegister::new(
        "Instruction Reg.".to_string(),
        4,
        BusSelector::HSB,
        ControlLine::II,
        ControlLine::IO,
    );
    ir.on_clock_high(&links, &mut bus);
    assert_eq!(ir.read(), bits(field));
    ir
}

fn fetch_steps() -> Vec<Vec<ControlLine>> {
    vec![
        vec![ControlLine::CO, ControlLine::MI],
        vec![ControlLine::RO, ControlLine::II],
        vec![ControlLine::CE],
    ]
}

#[test]
fn decoder_knows_each_instruction() {
    let decoder = Decoder::new();
    assert_eq!(decoder.decode_opcode(&bits("0000")), Some(OpCode::NOP));
    assert_eq!(decoder.decode_opcode(&bits("1000")), Some(OpCode::LDA));
    assert_eq!(decoder.decode_opcode(&bits("0100")), Some(OpCode::ADD));
    assert_eq!(decoder.decode_opcode(&bits("1100")), Some(OpCode::SUB));
    assert_eq!(decoder.decode_opcode(&bits("0010")), Some(OpCode::MUL));
    assert_eq!(decoder.decode_opcode(&bits("1010")), Some(OpCode::OUT));
    assert_eq!(decoder.decode_opcode(&bits("1111")), Some(OpCode::HLT));
}

#[test]
fn decoder_knows_no_other_pattern() {
    let decoder = Decoder::new();
    let known = ["0000", "1000", "0100", "1100", "0010", "1010", "1111"];
    for n in 0..16usize {
        let mut field = String::new();
        for i in 0..4 {
            field.push(if (n >> i) & 1 == 1 { '1' } else { '0' });
        }
        if !known.contains(&field.as_str()) {
            assert_eq!(decoder.decode_opcode(&bits(&field)), None);
            assert_eq!(decoder.decode_instruction(bits(&field)), Vec::<Vec<ControlLine>>::new());
        }
    }
    assert_eq!(decoder.decode_opcode(&bits("")), None);
    assert_eq!(decoder.decode_opcode(&bits("10000")), None);
    assert_eq!(decoder.decode_opcode(&bits("100")), None);
}

#[test]
fn decoder_gives_the_microcode_of_each_instruction() {
    let decoder = Decoder::new();
    let none: Vec<Vec<ControlLine>> = vec![];
    assert_eq!(decoder.decode_instruction(bits("0000")), none);
    assert_eq!(
        decoder.decode_instruction(bits("1000")),
        vec![vec![ControlLine::MI], vec![ControlLine::RO, ControlLine::AI]]
    );
    assert_eq!(
        decoder.decode_instruction(bits("0100")),
        vec![
            vec![ControlLine::MI],
            vec![ControlLine::RO, ControlLine::BI],
            vec![ControlLine::EO, ControlLine::AI]
        ]
    );
    assert_eq!(
        decoder.decode_instruction(bits("1100")),
        vec![
            vec![ControlLine::MI],
            vec![ControlLine::RO, ControlLine::BI],
            vec![ControlLine::SU, ControlLine::AI]
        ]
    );
    assert_eq!(decoder.decode_instruction(bits("0010")), none);
    assert_eq!(
        decoder.decode_instruction(bits("1010")),
        vec![vec![ControlLine::AO, ControlLine::OI]]
    );
    assert_eq!(decoder.decode_instruction(bits("1111")), vec![vec![ControlLine::HLT]]);
}

#[test]
fn microcode_has_one_driver_of_the_bus_in_each_step() {
    let drivers = [
        ControlLine::RO,
        ControlLine::IO,
        ControlLine::AO,
        ControlLine::EO,
        ControlLine::SU,
        ControlLine::BO,
        ControlLine::CO,
    ];
    let mut programs = vec![fetch_steps()];
    for opcode in [
        OpCode::NOP,
        OpCode::LDA,
        OpCode::ADD,
        OpCode::SUB,
        OpCode::MUL,
        OpCode::OUT,
        OpCode::HLT,
    ] {
        programs.push(opcode.microcode_steps());
    }
    for program in programs {
        for step in program {
            let driving = step.iter().filter(|line| drivers.contains(line)).count();
            assert!(driving <= 1);
        }
    }
}

#[test]
fn sequencer_walks_fetch_then_execute_and_starts_again() {
    let ir = instruction_register("0100");
    let mut sequencer = Sequencer::new();
    let mut expected = fetch_steps();
    expected.push(vec![ControlLine::MI]);
    expected.push(vec![ControlLine::RO, ControlLine::BI]);
    expected.push(vec![ControlLine::EO, ControlLine::AI]);
    for round in 0..3 {
        for (n, step) in expected.iter().enumerate() {
            assert_eq!(sequencer.step() as usize, n, "round {}", round);
            assert_eq!(&sequencer.get_current_step_controls(), step);
            sequencer.increment_step(&ir);
        }
        assert_eq!(sequencer.step(), 0);
    }
}

#[test]
fn sequencer_cycle_of_an_instruction_without_execute_steps() {
    let ir = instruction_register("0000");
    let mut sequencer = Sequencer::new();
    for step in fetch_steps() {
        assert_eq!(sequencer.get_current_step_controls(), step);
        sequencer.increment_step(&ir);
    }
    assert_eq!(sequencer.step(), 0);
    assert_eq!(sequencer.get_current_step_controls(), vec![ControlLine::CO, ControlLine::MI]);
}

#[test]
fn sequencer_decodes_once_when_the_fetch_steps_are_passed() {
    let halt = instruction_register("1111");
    let load = instruction_register("1000");
    let mut sequencer = Sequencer::new();
    // What the register holds during the fetch steps does not count.
    sequencer.increment_step(&halt);
    sequencer.increment_step(&halt);
    sequencer.increment_step(&load);
    assert_eq!(sequencer.step(), 3);
    assert_eq!(sequencer.get_current_step_controls(), vec![ControlLine::MI]);
    // Nor what it holds during the execute steps.
    sequencer.increment_step(&halt);
    assert_eq!(sequencer.step(), 4);
    assert_eq!(sequencer.get_current_step_controls(), vec![ControlLine::RO, ControlLine::AI]);
    sequencer.increment_step(&halt);
    assert_eq!(sequencer.step(), 0);
}

#[test]
fn sequencer_previous_step() {
    let ir = instruction_register("1010");
    let mut sequencer = Sequencer::new();
    assert_eq!(sequencer.get_prev_step_controls(), vec![ControlLine::CE]);
    sequencer.increment_step(&ir);
    assert_eq!(sequencer.get_prev_step_controls(), vec![ControlLine::CO, ControlLine::MI]);
    sequencer.increment_step(&ir);
    sequencer.increment_step(&ir);
    assert_eq!(sequencer.step(), 3);
    assert_eq!(sequencer.get_prev_step_controls(), vec![ControlLine::CE]);
    sequencer.increment_step(&ir);
    assert_eq!(sequencer.step(), 0);
    assert_eq!(sequencer.get_prev_step_controls(), vec![ControlLine::AO, ControlLine::OI]);
}
