use logicsim::algebra::{invert, FiveLogic};
use logicsim::engine::{evalline, simulate};
use logicsim::fault::{build_fault_table, FaultRecord, FaultTable, SA0, SA1};
use logicsim::gate::GateKind;
use logicsim::netlist::{build_netlist, NetlistRecord, SimError};

fn and_netlist() -> Vec<NetlistRecord> {
    vec![
        NetlistRecord::Gate(GateKind::And, vec![1, 2, 3]),
        NetlistRecord::Input(vec![1, 2]),
        NetlistRecord::Output(vec![3]),
    ]
}

fn no_faults() -> FaultTable {
    FaultTable { codes: Vec::new() }
}

#[test]
fn and_circuit_one_one() {
    let records = and_netlist();
    let (mut gates, mut wires, ins, outs) = build_netlist(&records).unwrap();
    let r = simulate(&mut gates, &mut wires, &ins, &outs, &vec![1, 1], false, &no_faults());
    assert_eq!(r, vec![FiveLogic::ONE]);
}

#[test]
fn and_circuit_zero_one() {
    let records = and_netlist();
    let (mut gates, mut wires, ins, outs) = build_netlist(&records).unwrap();
    let r = simulate(&mut gates, &mut wires, &ins, &outs, &vec![0, 1], false, &no_faults());
    assert_eq!(r, vec![FiveLogic::ZERO]);
}

#[test]
fn inverter_circuit() {
    let records = vec![
        NetlistRecord::Gate(GateKind::Inv, vec![1, 2]),
        NetlistRecord::Input(vec![1]),
        NetlistRecord::Output(vec![2]),
    ];
    let (mut gates, mut wires, ins, outs) = build_netlist(&records).unwrap();
    let r = simulate(&mut gates, &mut wires, &ins, &outs, &vec![1], false, &no_faults());
    assert_eq!(r, vec![FiveLogic::ZERO]);
}

#[test]
fn or_nand_circuit() {
    let records = vec![
        NetlistRecord::Gate(GateKind::Or, vec![1, 2, 3]),
        NetlistRecord::Gate(GateKind::Nand, vec![3, 1, 4]),
        NetlistRecord::Input(vec![1, 2]),
        NetlistRecord::Output(vec![4]),
    ];
    let (mut gates, mut wires, ins, outs) = build_netlist(&records).unwrap();
    let r = simulate(&mut gates, &mut wires, &ins, &outs, &vec![0, 0], false, &no_faults());
    assert_eq!(r, vec![FiveLogic::ONE]);
    assert_eq!(wires.get(3).unwrap().level, FiveLogic::ZERO);
}

#[test]
fn buffer_circuit() {
    let records = vec![
        NetlistRecord::Gate(GateKind::Buf, vec![1, 2]),
        NetlistRecord::Input(vec![1]),
        NetlistRecord::Output(vec![2]),
    ];
    let (mut gates, mut wires, ins, outs) = build_netlist(&records).unwrap();
    let r = simulate(&mut gates, &mut wires, &ins, &outs, &vec![1], false, &no_faults());
    assert_eq!(r, vec![FiveLogic::ONE]);
}

#[test]
fn unknown_input_propagates_as_x() {
    let records = and_netlist();
    let (mut gates, mut wires, ins, outs) = build_netlist(&records).unwrap();
    let r = simulate(&mut gates, &mut wires, &ins, &outs, &vec![5, 1], false, &no_faults());
    assert_eq!(r, vec![FiveLogic::X]);
}

#[test]
fn stuck_at_zero_makes_d() {
    // Net 1 is stuck at 0; the fault-free input drives it to 1, so the net
    // carries "good 1 / faulty 0", which a pass-through AND keeps.
    let records = and_netlist();
    let (mut gates, mut wires, ins, outs) = build_netlist(&records).unwrap();
    let frecs = vec![FaultRecord { net: 1, kind: 0 }];
    let faults = build_fault_table(&frecs, wires.len());
    let r = simulate(&mut gates, &mut wires, &ins, &outs, &vec![1, 1], true, &faults);
    assert_eq!(wires.get(1).unwrap().level, FiveLogic::D);
    assert_eq!(r, vec![FiveLogic::D]);
}

#[test]
fn stuck_at_zero_masked_by_controlling_zero() {
    let records = and_netlist();
    let (mut gates, mut wires, ins, outs) = build_netlist(&records).unwrap();
    let frecs = vec![FaultRecord { net: 1, kind: 0 }];
    let faults = build_fault_table(&frecs, wires.len());
    let r = simulate(&mut gates, &mut wires, &ins, &outs, &vec![1, 0], true, &faults);
    assert_eq!(r, vec![FiveLogic::ZERO]);
}

#[test]
fn stuck_at_one_makes_dnot() {
    let records = and_netlist();
    let (mut gates, mut wires, ins, outs) = build_netlist(&records).unwrap();
    let frecs = vec![FaultRecord { net: 1, kind: 1 }];
    let faults = build_fault_table(&frecs, wires.len());
    let r = simulate(&mut gates, &mut wires, &ins, &outs, &vec![0, 1], true, &faults);
    assert_eq!(wires.get(1).unwrap().level, FiveLogic::Dnot);
    assert_eq!(r, vec![FiveLogic::Dnot]);
}

#[test]
fn fault_table_ignored_when_disabled() {
    let records = and_netlist();
    let (mut gates, mut wires, ins, outs) = build_netlist(&records).unwrap();
    let frecs = vec![FaultRecord { net: 1, kind: 0 }];
    let faults = build_fault_table(&frecs, wires.len());
    let r = simulate(&mut gates, &mut wires, &ins, &outs, &vec![1, 1], false, &faults);
    assert_eq!(r, vec![FiveLogic::ONE]);
}

#[test]
fn fault_on_internal_net() {
    // Stuck-at-0 on the internal net between two buffers.
    let records = vec![
        NetlistRecord::Gate(GateKind::Buf, vec![1, 2]),
        NetlistRecord::Gate(GateKind::Buf, vec![2, 3]),
        NetlistRecord::Input(vec![1]),
        NetlistRecord::Output(vec![3]),
    ];
    let (mut gates, mut wires, ins, outs) = build_netlist(&records).unwrap();
    let frecs = vec![FaultRecord { net: 2, kind: 0 }];
    let faults = build_fault_table(&frecs, wires.len());
    let r = simulate(&mut gates, &mut wires, &ins, &outs, &vec![1], true, &faults);
    assert_eq!(r, vec![FiveLogic::D]);
}

#[test]
fn cyclic_netlist_terminates_with_unresolved_output() {
    // Two inverters feed each other; the side circuit still resolves.
    let records = vec![
        NetlistRecord::Gate(GateKind::Inv, vec![2, 3]),
        NetlistRecord::Gate(GateKind::Inv, vec![3, 2]),
        NetlistRecord::Gate(GateKind::Buf, vec![1, 4]),
        NetlistRecord::Input(vec![1]),
        NetlistRecord::Output(vec![2, 4]),
    ];
    let (mut gates, mut wires, ins, outs) = build_netlist(&records).unwrap();
    let r = simulate(&mut gates, &mut wires, &ins, &outs, &vec![1], false, &no_faults());
    assert_eq!(r, vec![FiveLogic::U, FiveLogic::ONE]);
}

#[test]
fn self_feeding_gate_terminates() {
    // An output wired back as an input of its own gate never settles.
    let records = vec![
        NetlistRecord::Gate(GateKind::And, vec![1, 2, 2]),
        NetlistRecord::Input(vec![1]),
        NetlistRecord::Output(vec![2]),
    ];
    let (mut gates, mut wires, ins, outs) = build_netlist(&records).unwrap();
    let r = simulate(&mut gates, &mut wires, &ins, &outs, &vec![1], false, &no_faults());
    assert_eq!(r, vec![FiveLogic::U]);
}

#[test]
fn rerun_on_fresh_copy_is_identical() {
    let records = vec![
        NetlistRecord::Gate(GateKind::Or, vec![1, 2, 3]),
        NetlistRecord::Gate(GateKind::Nand, vec![3, 1, 4]),
        NetlistRecord::Input(vec![1, 2]),
        NetlistRecord::Output(vec![4]),
    ];
    let (mut gates1, mut wires1, ins1, outs1) = build_netlist(&records).unwrap();
    let r1 = simulate(&mut gates1, &mut wires1, &ins1, &outs1, &vec![1, 0], false, &no_faults());
    let (mut gates2, mut wires2, ins2, outs2) = build_netlist(&records).unwrap();
    let r2 = simulate(&mut gates2, &mut wires2, &ins2, &outs2, &vec![1, 0], false, &no_faults());
    assert_eq!(r1, r2);
}

#[test]
fn further_passes_change_no_resolved_net() {
    let records = vec![
        NetlistRecord::Gate(GateKind::Or, vec![1, 2, 3]),
        NetlistRecord::Gate(GateKind::Nand, vec![3, 1, 4]),
        NetlistRecord::Input(vec![1, 2]),
        NetlistRecord::Output(vec![4]),
    ];
    let (mut gates, mut wires, ins, outs) = build_netlist(&records).unwrap();
    let r = simulate(&mut gates, &mut wires, &ins, &outs, &vec![1, 1], false, &no_faults());
    let before: Vec<FiveLogic> =
        vec![1u32, 2, 3, 4].iter().map(|n| wires.get(*n).unwrap().level).collect();
    evalline(1, &mut gates, &mut wires, false, &no_faults());
    evalline(2, &mut gates, &mut wires, false, &no_faults());
    let after: Vec<FiveLogic> =
        vec![1u32, 2, 3, 4].iter().map(|n| wires.get(*n).unwrap().level).collect();
    assert_eq!(before, after);
    assert_eq!(r, vec![FiveLogic::ZERO]);
}

#[test]
fn fault_table_codes() {
    let frecs = vec![
        FaultRecord { net: 1, kind: 0 },
        FaultRecord { net: 2, kind: 1 },
        FaultRecord { net: 0, kind: 7 },
    ];
    let t = build_fault_table(&frecs, 4);
    assert_eq!(t.codes, vec![0u8, SA0, SA1, 0u8]);
}

#[test]
fn fault_table_last_record_wins() {
    let frecs = vec![FaultRecord { net: 1, kind: 0 }, FaultRecord { net: 1, kind: 1 }];
    let t = build_fault_table(&frecs, 2);
    assert_eq!(t.codes, vec![0u8, SA1]);
}

#[test]
fn wrong_arity_is_malformed() {
    let records = vec![NetlistRecord::Gate(GateKind::And, vec![1, 2])];
    assert_eq!(build_netlist(&records).err().unwrap(), SimError::MalformedNetlist);
    let records = vec![NetlistRecord::Gate(GateKind::Inv, vec![1, 2, 3])];
    assert_eq!(build_netlist(&records).err().unwrap(), SimError::MalformedNetlist);
}

#[test]
fn negative_net_id_is_malformed() {
    let records = vec![NetlistRecord::Gate(GateKind::And, vec![-2, 2, 3])];
    assert_eq!(build_netlist(&records).err().unwrap(), SimError::MalformedNetlist);
    let records = vec![NetlistRecord::Input(vec![-5])];
    assert_eq!(build_netlist(&records).err().unwrap(), SimError::MalformedNetlist);
}

#[test]
fn port_placeholder_is_skipped() {
    let records = vec![
        NetlistRecord::Gate(GateKind::Buf, vec![1, 2]),
        NetlistRecord::Input(vec![-1, 1, -1]),
        NetlistRecord::Output(vec![2, -1]),
    ];
    let (_gates, _wires, ins, outs) = build_netlist(&records).unwrap();
    assert_eq!(ins, vec![1u32]);
    assert_eq!(outs, vec![2u32]);
}

#[test]
fn fanout_reaches_every_consumer() {
    // Net 1 feeds both gates: driving it resolves both outputs in one pass.
    let records = vec![
        NetlistRecord::Gate(GateKind::Buf, vec![1, 2]),
        NetlistRecord::Gate(GateKind::Inv, vec![1, 3]),
        NetlistRecord::Input(vec![1]),
        NetlistRecord::Output(vec![2, 3]),
    ];
    let (mut gates, mut wires, ins, outs) = build_netlist(&records).unwrap();
    let r = simulate(&mut gates, &mut wires, &ins, &outs, &vec![0], false, &no_faults());
    assert_eq!(r, vec![FiveLogic::ZERO, FiveLogic::ONE]);
}

#[test]
fn empty_netlist_builds_and_simulates() {
    let records: Vec<NetlistRecord> = Vec::new();
    let (mut gates, mut wires, ins, outs) = build_netlist(&records).unwrap();
    assert_eq!(ins, Vec::<u32>::new());
    assert_eq!(outs, Vec::<u32>::new());
    let r = simulate(&mut gates, &mut wires, &ins, &outs, &Vec::new(), false, &no_faults());
    assert_eq!(r, Vec::<FiveLogic>::new());
}

#[test]
fn repeated_input_takes_last_seed() {
    // Net 1 is listed twice; the later vector entry is the one seeded last.
    let records = vec![
        NetlistRecord::Gate(GateKind::Buf, vec![1, 2]),
        NetlistRecord::Input(vec![1, 1]),
        NetlistRecord::Output(vec![2]),
    ];
    let (mut gates, mut wires, ins, outs) = build_netlist(&records).unwrap();
    let r = simulate(&mut gates, &mut wires, &ins, &outs, &vec![0, 1], false, &no_faults());
    assert_eq!(r, vec![FiveLogic::ONE]);
}

#[test]
fn repeated_output_is_reported_twice() {
    let records = vec![
        NetlistRecord::Gate(GateKind::Inv, vec![1, 2]),
        NetlistRecord::Input(vec![1]),
        NetlistRecord::Output(vec![2, 2]),
    ];
    let (mut gates, mut wires, ins, outs) = build_netlist(&records).unwrap();
    let r = simulate(&mut gates, &mut wires, &ins, &outs, &vec![0], false, &no_faults());
    assert_eq!(r, vec![FiveLogic::ONE, FiveLogic::ONE]);
}

#[test]
fn invert_involution_on_fault_values() {
    assert_eq!(invert(&FiveLogic::D), FiveLogic::Dnot);
    assert_eq!(invert(&FiveLogic::Dnot), FiveLogic::D);
    assert_eq!(invert(&invert(&FiveLogic::D)), FiveLogic::D);
    assert_eq!(invert(&FiveLogic::X), FiveLogic::X);
    assert_eq!(invert(&FiveLogic::U), FiveLogic::U);
}
