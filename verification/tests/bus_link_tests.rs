use bit_vec::BitVec;
use rtl_computer::bus::{Bus, BusSelector};
use rtl_computer::control::control::ControlLine;
use rtl_computer::control::links::ControlLinks;
use rtl_computer::link::{Callback, Link};

/// A bit vector from its digits, the bit at index 0 first.
fn bits(text: &str) -> BitVec {
    let mut v = BitVec::new();
    for c in text.chars() {
        v.push(c == '1');
    }
    v
}

#[test]
fn new_bus_is_one_cleared_word() {
    let bus = Bus::new();
    assert_eq!(bus.read(), bits("00000000"));
}

#[test]
fn bus_reads_back_a_word_of_its_width() {
    let mut bus = Bus::new();
    bus.write(&bits("10110001"));
    assert_eq!(bus.read(), bits("10110001"));
}

#[test]
fn bus_cuts_a_longer_value() {
    let mut bus = Bus::new();
    bus.write(&bits("1011000111"));
    assert_eq!(bus.read(), bits("10110001"));
}

#[test]
fn bus_extends_a_shorter_value_with_cleared_bits() {
    let mut bus = Bus::new();
    bus.write(&bits("11111111"));
    bus.write(&bits("101"));
    assert_eq!(bus.read(), bits("10100000"));
    bus.write(&bits(""));
    assert_eq!(bus.read(), bits("00000000"));
}

#[test]
fn bus_windows_at_both_ends() {
    let mut bus = Bus::new();
    bus.write(&bits("10000111"));
    assert_eq!(bus.read_part(4, BusSelector::LSB), bits("1000"));
    assert_eq!(bus.read_part(4, BusSelector::HSB), bits("0111"));
    assert_eq!(bus.read_part(8, BusSelector::HSB), bits("10000111"));
    assert_eq!(bus.read_part(0, BusSelector::LSB), bits(""));
    assert_eq!(bus.read_part(3, BusSelector::HSB), bits("111"));
}

#[test]
fn bus_window_wider_than_the_bus_is_cleared() {
    let mut bus = Bus::new();
    bus.write(&bits("11111111"));
    assert_eq!(bus.read_part(9, BusSelector::LSB), bits("000000000"));
    assert_eq!(bus.read_part(9, BusSelector::HSB), bits("000000000"));
}

#[test]
fn link_without_endpoints_is_low() {
    let link = Link::new();
    assert!(!link.get_state());
    assert!(link.endpoints().is_empty());
}

#[test]
fn link_is_low_after_an_endpoint_registers() {
    let mut link = Link::new();
    link.add_endpoint("A".to_string());
    assert!(!link.get_state());
    assert_eq!(link.endpoints(), vec![("A".to_string(), false)]);
}

#[test]
fn link_is_high_while_any_endpoint_is_asserted() {
    let mut link = Link::new();
    link.add_endpoint("A".to_string());
    link.add_endpoint("B".to_string());
    link.add_endpoint("C".to_string());
    link.set_endpoint("B".to_string(), true);
    assert!(link.get_state());
    assert_eq!(
        link.endpoints(),
        vec![("A".to_string(), false), ("B".to_string(), true), ("C".to_string(), false)]
    );
    link.set_endpoint("B".to_string(), false);
    assert!(!link.get_state());
}

#[test]
fn link_stays_high_until_the_last_endpoint_releases() {
    let mut link = Link::new();
    link.add_endpoint("A".to_string());
    link.add_endpoint("B".to_string());
    link.set_endpoint("A".to_string(), true);
    link.set_endpoint("B".to_string(), true);
    link.set_endpoint("A".to_string(), false);
    assert!(link.get_state());
    link.set_endpoint("B".to_string(), false);
    assert!(!link.get_state());
}

#[test]
fn link_ignores_an_owner_that_never_registered() {
    let mut link = Link::new();
    link.add_endpoint("A".to_string());
    link.set_endpoint("Z".to_string(), true);
    assert!(!link.get_state());
    assert_eq!(link.endpoints(), vec![("A".to_string(), false)]);
}

#[test]
fn link_releases_an_endpoint_that_registers_again() {
    let mut link = Link::new();
    link.add_endpoint("A".to_string());
    link.set_endpoint("A".to_string(), true);
    link.add_endpoint("A".to_string());
    assert!(!link.get_state());
    assert_eq!(link.endpoints().len(), 1);
}

#[test]
fn link_reports_its_callbacks_on_every_set() {
    let mut link = Link::new();
    link.add_endpoint("A".to_string());
    assert_eq!(link.set_endpoint("A".to_string(), true), vec![]);
    link.add_callback(Callback::Halt);
    link.add_callback(Callback::AluSum);
    assert_eq!(link.set_endpoint("A".to_string(), true), vec![Callback::Halt, Callback::AluSum]);
    assert_eq!(link.set_endpoint("A".to_string(), true), vec![Callback::Halt, Callback::AluSum]);
    assert_eq!(link.set_endpoint("A".to_string(), false), vec![Callback::Halt, Callback::AluSum]);
    assert_eq!(link.set_endpoint("Z".to_string(), false), vec![Callback::Halt, Callback::AluSum]);
}

#[test]
fn network_keeps_the_lines_apart() {
    let mut links = ControlLinks::new();
    for line in ControlLine::all() {
        assert!(!links.get_state(line));
        links.add_endpoint(line, "X".to_string());
    }
    links.add_callback(ControlLine::EO, Callback::AluSum);
    assert_eq!(links.set_endpoint(ControlLine::MI, "X".to_string(), true), vec![]);
    assert_eq!(links.set_endpoint(ControlLine::EO, "X".to_string(), true), vec![Callback::AluSum]);
    for line in ControlLine::all() {
        assert_eq!(links.get_state(line), line == ControlLine::MI || line == ControlLine::EO);
    }
    assert!(links.get(ControlLine::MI).get_state());
    assert_eq!(links.get(ControlLine::RO).endpoints(), vec![("X".to_string(), false)]);
}

#[test]
fn control_lines_have_their_names_and_places() {
    let names = [
        "CLK", "HLT", "MI", "RI", "RO", "II", "IO", "AI", "AO", "EO", "SU", "BI", "BO", "OI", "CE",
        "CO", "J", "FI",
    ];
    let lines = ControlLine::all();
    assert_eq!(lines.len(), 18);
    for (n, line) in lines.iter().enumerate() {
        assert_eq!(line.index(), n);
        assert_eq!(line.to_string(), names[n]);
    }
}
