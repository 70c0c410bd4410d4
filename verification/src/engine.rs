//! The event-driven propagation engine.
//!
//! Values spread from driven nets through fanout: a gate evaluates once
//! every one of its inputs carries a non-`U` level and its own output is
//! still `U`, its output net is driven (with the net's stuck-at annotation
//! applied at that point), and propagation continues from that net. A gate
//! whose output is already resolved is never re-evaluated and a resolved
//! net is never re-driven, so one run evaluates each gate at most once and
//! propagation is bounded even on a cyclic netlist.
//!
//! The whole run is mirrored by a spec-level model (`step_wire`,
//! `step_fanout`, `step_gate`, `sim_model`); every executable function
//! returns exactly the model's state, so the outcome of a run is a function
//! of the starting state and the inputs alone.

use vstd::prelude::*;

use crate::algebra::FiveLogic;
use crate::fault::{drive, drive_spec, FaultTable};
use crate::gate::{eval_result, gate_table, Gate, GateKind, GateStack, GateView, Gates};
use crate::wires::{
    ensure_wire_spec, has_wire, lemma_first_match, lemma_wire_index, lemma_wire_index_push,
    lemma_wire_index_update, level_of, set_level_spec, wire_index, WireTable, WireView,
};

verus! {

/// The whole mutable state of one simulation run: every gate and every
/// wire, as mathematical views.
pub struct SimState {
    pub gates: Seq<GateView>,
    pub wires: Seq<WireView>,
}

/// How many gates still have an unresolved (`U`) output.
pub open spec fn unresolved(gs: Seq<GateView>) -> nat
    decreases gs.len(),
{
    if gs.len() == 0 {
        0
    } else {
        unresolved(gs.drop_last()) + (if gs.last().val_out == FiveLogic::U {
            1nat
        } else {
            0nat
        })
    }
}

/// Replacing one gate changes the unresolved count by exactly the change of
/// that gate's output status.
pub proof fn lemma_unresolved_update(gs: Seq<GateView>, i: int, g: GateView)
    requires
        0 <= i < gs.len(),
    ensures
        unresolved(gs.update(i, g)) + (if gs[i].val_out == FiveLogic::U {
            1nat
        } else {
            0nat
        }) == unresolved(gs) + (if g.val_out == FiveLogic::U {
            1nat
        } else {
            0nat
        }),
    decreases gs.len(),
{
    let u = gs.update(i, g);
    assert(u.len() == gs.len());
    if i == gs.len() - 1 {
        assert(u.drop_last() =~= gs.drop_last());
        assert(u.last() == g);
    } else {
        assert(u.drop_last() =~= gs.drop_last().update(i, g));
        assert(u.last() == gs.last());
        lemma_unresolved_update(gs.drop_last(), i, g);
    }
}

/// A gate with an unresolved output makes the count at least one.
pub proof fn lemma_unresolved_at_least_one(gs: Seq<GateView>, i: int)
    requires
        0 <= i < gs.len(),
        gs[i].val_out == FiveLogic::U,
    ensures
        unresolved(gs) >= 1,
    decreases gs.len(),
{
    if i < gs.len() - 1 {
        lemma_unresolved_at_least_one(gs.drop_last(), i);
    }
}

/// Every net holds one directory entry at most.
pub open spec fn wires_unique(ws: Seq<WireView>) -> bool {
    forall|i: int, j: int| 0 <= i < j < ws.len() ==> ws[i].net != ws[j].net
}

/// Every net a gate reads or drives is in the directory.
pub open spec fn gate_nets_present(gs: Seq<GateView>, ws: Seq<WireView>) -> bool {
    forall|i: int|
        0 <= i < gs.len() ==> has_wire(ws, (#[trigger] gs[i]).in_a) && has_wire(ws, gs[i].in_b)
            && has_wire(ws, gs[i].out)
}

/// Every fanout entry is below the given bound.
pub open spec fn fanout_bounded(ws: Seq<WireView>, b: int) -> bool {
    forall|i: int, j: int|
        0 <= i < ws.len() && 0 <= j < ws[i].fanout.len() ==> (#[trigger] ws[i].fanout[j] as int) < b
}

/// Every fanout entry is the index of a gate on the stack.
pub open spec fn fanout_in_range(gs: Seq<GateView>, ws: Seq<WireView>) -> bool {
    fanout_bounded(ws, gs.len() as int)
}

/// The internal consistency the engine relies on; the netlist constructor
/// establishes it and every engine step preserves it.
pub open spec fn wf(st: SimState) -> bool {
    wires_unique(st.wires) && gate_nets_present(st.gates, st.wires) && fanout_in_range(
        st.gates,
        st.wires,
    )
}

/// Gate `i` after its cached inputs have been refreshed from the directory.
pub open spec fn gate_with_inputs(st: SimState, gi: int) -> GateView {
    let g = st.gates[gi];
    GateView {
        val_a: level_of(st.wires, g.in_a),
        val_b: level_of(st.wires, g.in_b),
        ..g
    }
}

/// One visit to gate `gi`: its cached inputs are refreshed; when every
/// input is resolved and its output is not, it evaluates, drives its output
/// net (unless that net is already resolved) with the net's stuck-at
/// annotation applied, and propagation continues from the output net.
pub open spec fn step_gate(st: SimState, gi: int, en: bool, ft: Seq<u8>, fuel: nat) -> SimState
    decreases fuel, 0nat, 0nat,
{
    if 0 <= gi < st.gates.len() {
        let g = st.gates[gi];
        let a = level_of(st.wires, g.in_a);
        let b = level_of(st.wires, g.in_b);
        let g1 = gate_with_inputs(st, gi);
        if a != FiveLogic::U && b != FiveLogic::U && g.val_out == FiveLogic::U {
            let outv = eval_result(gate_table(g.kind, a, b), g.val_out);
            let g2 = GateView { val_out: outv, ..g1 };
            let ws1 = if level_of(st.wires, g.out) == FiveLogic::U {
                set_level_spec(st.wires, g.out, drive_spec(ft, en, g.out, outv))
            } else {
                st.wires
            };
            let st1 = (SimState { gates: st.gates.update(gi, g2), wires: ws1 });
            if fuel > 0 {
                step_wire(st1, g.out, en, ft, (fuel - 1) as nat)
            } else {
                st1
            }
        } else {
            (SimState { gates: st.gates.update(gi, g1), wires: st.wires })
        }
    } else {
        st
    }
}

/// The visits to the gates of a fanout list, from position `k` on.
pub open spec fn step_fanout(
    st: SimState,
    fo: Seq<u32>,
    k: int,
    en: bool,
    ft: Seq<u8>,
    fuel: nat,
) -> SimState
    decreases fuel, fo.len() - k, 1nat,
{
    if 0 <= k < fo.len() {
        let st1 = step_gate(st, fo[k] as int, en, ft, fuel);
        step_fanout(st1, fo, k + 1, en, ft, fuel)
    } else {
        st
    }
}

/// The fanout list propagation starts from, after the wire has been created
/// on first reference.
pub open spec fn start_fanout(st: SimState, w: u32) -> Seq<u32> {
    let ws1 = ensure_wire_spec(st.wires, w);
    ws1[wire_index(ws1, w)].fanout
}

/// One propagation pass from net `w`: the wire is created on first
/// reference and every gate of its fanout is visited in list order.
pub open spec fn step_wire(st: SimState, w: u32, en: bool, ft: Seq<u8>, fuel: nat) -> SimState
    decreases fuel, start_fanout(st, w).len(), 2nat,
{
    let st1 = (SimState { gates: st.gates, wires: ensure_wire_spec(st.wires, w) });
    step_fanout(st1, start_fanout(st, w), 0, en, ft, fuel)
}

/// Propagation changes no gate's kind or wiring and never overwrites a
/// resolved output.
pub open spec fn gates_preserved(g1: Seq<GateView>, g2: Seq<GateView>) -> bool {
    &&& g2.len() == g1.len()
    &&& forall|i: int|
        0 <= i < g1.len() ==> {
            &&& (#[trigger] g2[i]).kind == g1[i].kind
            &&& g2[i].in_a == g1[i].in_a
            &&& g2[i].in_b == g1[i].in_b
            &&& g2[i].out == g1[i].out
            &&& (g1[i].val_out != FiveLogic::U ==> g2[i].val_out == g1[i].val_out)
        }
}

/// Propagation only appends fresh wires and never changes an existing
/// wire's identity, fanout, classification, or — once resolved — its level.
pub open spec fn wires_preserved(w1: Seq<WireView>, w2: Seq<WireView>) -> bool {
    &&& w2.len() >= w1.len()
    &&& forall|i: int|
        0 <= i < w1.len() ==> {
            &&& (#[trigger] w2[i]).net == w1[i].net
            &&& w2[i].fanout == w1[i].fanout
            &&& w2[i].wiretype == w1[i].wiretype
            &&& (w1[i].level != FiveLogic::U ==> w2[i].level == w1[i].level)
        }
}

/// A net findable in a directory is findable at the same place in any
/// directory that extends it without renaming entries.
pub proof fn lemma_wire_index_stable(w1: Seq<WireView>, w2: Seq<WireView>, n: u32)
    requires
        w2.len() >= w1.len(),
        forall|i: int| 0 <= i < w1.len() ==> (#[trigger] w2[i]).net == w1[i].net,
        has_wire(w1, n),
    ensures
        wire_index(w2, n) == wire_index(w1, n),
{
    lemma_wire_index(w1, n);
    let i1 = wire_index(w1, n);
    assert(w2[i1].net == n);
    assert forall|j: int| 0 <= j < i1 implies w2[j].net != n by {
        assert(w1[j].net != n);
    }
    lemma_first_match(w2, n, i1);
}

/// Creating a wire on first reference keeps the state well formed.
pub proof fn lemma_wf_ensure(st: SimState, w: u32)
    requires
        wf(st),
    ensures
        wf(SimState { gates: st.gates, wires: ensure_wire_spec(st.wires, w) }),
        wires_preserved(st.wires, ensure_wire_spec(st.wires, w)),
{
    let ws = st.wires;
    let ws1 = ensure_wire_spec(ws, w);
    if !has_wire(ws, w) {
        lemma_wire_index(ws, w);
        assert(forall|i: int| 0 <= i < ws.len() ==> (#[trigger] ws1[i]) == ws[i]);
        assert(wires_unique(ws1));
        assert forall|i: int| 0 <= i < st.gates.len() implies has_wire(
            ws1,
            (#[trigger] st.gates[i]).in_a,
        ) && has_wire(ws1, st.gates[i].in_b) && has_wire(ws1, st.gates[i].out) by {
            lemma_wire_index_stable(ws, ws1, st.gates[i].in_a);
            lemma_wire_index_stable(ws, ws1, st.gates[i].in_b);
            lemma_wire_index_stable(ws, ws1, st.gates[i].out);
        }
        assert(fanout_in_range(st.gates, ws1));
    }
}

/// Driving a net keeps the state well formed.
pub proof fn lemma_wf_set_level(st: SimState, n: u32, v: FiveLogic)
    requires
        wf(st),
        has_wire(st.wires, n),
    ensures
        wf(SimState { gates: st.gates, wires: set_level_spec(st.wires, n, v) }),
{
    let ws = st.wires;
    let ws1 = set_level_spec(ws, n, v);
    lemma_wire_index(ws, n);
    let i = wire_index(ws, n);
    assert(forall|j: int| 0 <= j < ws.len() ==> (#[trigger] ws1[j]).net == ws[j].net);
    assert(forall|j: int| 0 <= j < ws.len() ==> (#[trigger] ws1[j]).fanout == ws[j].fanout);
    assert(wires_unique(ws1));
    assert forall|k: int| 0 <= k < st.gates.len() implies has_wire(
        ws1,
        (#[trigger] st.gates[k]).in_a,
    ) && has_wire(ws1, st.gates[k].in_b) && has_wire(ws1, st.gates[k].out) by {
        lemma_wire_index_stable(ws, ws1, st.gates[k].in_a);
        lemma_wire_index_stable(ws, ws1, st.gates[k].in_b);
        lemma_wire_index_stable(ws, ws1, st.gates[k].out);
    }
    assert(fanout_in_range(st.gates, ws1));
}

/// A gate whose inputs are all resolved always matches a rule, and the
/// matched value is itself resolved.
pub proof fn lemma_gate_table_resolves(kind: GateKind, a: FiveLogic, b: FiveLogic)
    requires
        a != FiveLogic::U,
        b != FiveLogic::U,
    ensures
        gate_table(kind, a, b).is_some(),
        eval_result(gate_table(kind, a, b), FiveLogic::U) != FiveLogic::U,
{
}

/// Rewriting a gate's cached values keeps the state well formed.
pub proof fn lemma_wf_gate_update(st: SimState, gi: int, g: GateView)
    requires
        wf(st),
        0 <= gi < st.gates.len(),
        g.in_a == st.gates[gi].in_a,
        g.in_b == st.gates[gi].in_b,
        g.out == st.gates[gi].out,
    ensures
        wf(SimState { gates: st.gates.update(gi, g), wires: st.wires }),
{
    let gs1 = st.gates.update(gi, g);
    assert forall|i: int| 0 <= i < gs1.len() implies has_wire(st.wires, (#[trigger] gs1[i]).in_a)
        && has_wire(st.wires, gs1[i].in_b) && has_wire(st.wires, gs1[i].out) by {
        if i != gi {
            assert(gs1[i] == st.gates[i]);
        }
    }
}

/// A wire present before a first-reference creation is present after it.
pub proof fn lemma_has_after_ensure(ws: Seq<WireView>, n: u32, q: u32)
    requires
        has_wire(ws, q),
    ensures
        has_wire(ensure_wire_spec(ws, n), q),
        ensure_wire_spec(ws, n).len() >= ws.len(),
        forall|i: int| 0 <= i < ws.len() ==> (#[trigger] ensure_wire_spec(ws, n)[i]).net
            == ws[i].net,
{
    if !has_wire(ws, n) {
        lemma_wire_index_push(ws, crate::wires::fresh_wire(n), q);
    }
}

/// The wire for `n` is present once created on first reference.
pub proof fn lemma_has_self_after_ensure(ws: Seq<WireView>, n: u32)
    ensures
        has_wire(ensure_wire_spec(ws, n), n),
{
    if !has_wire(ws, n) {
        lemma_wire_index_push(ws, crate::wires::fresh_wire(n), n);
    }
}

/// Driving a net moves no wire and loses none.
pub proof fn lemma_has_after_set_level(ws: Seq<WireView>, n: u32, v: FiveLogic, q: u32)
    requires
        has_wire(ws, n),
        has_wire(ws, q),
    ensures
        has_wire(set_level_spec(ws, n, v), q),
        set_level_spec(ws, n, v).len() == ws.len(),
{
    lemma_wire_index(ws, n);
    let i = wire_index(ws, n);
    lemma_wire_index_update(ws, i, WireView { level: v, ..ws[i] }, q);
}

/// One executable visit to gate `gi`; the state it leaves
/// behind is what `step_gate` names, for any fuel covering the unresolved
/// count.
#[verifier::rlimit(60)]
fn eval_gate(
    gi: usize,
    gates: &mut GateStack,
    wires: &mut WireTable,
    fault_enabled: bool,
    faults: &FaultTable,
)
    requires
        wf(SimState { gates: old(gates)@, wires: old(wires)@ }),
        gi < old(gates)@.len(),
    ensures
        wf(SimState { gates: final(gates)@, wires: final(wires)@ }),
        gates_preserved(old(gates)@, final(gates)@),
        wires_preserved(old(wires)@, final(wires)@),
        unresolved(final(gates)@) <= unresolved(old(gates)@),
        forall|fuel: nat|
            fuel >= unresolved(old(gates)@) ==> (SimState {
                gates: final(gates)@,
                wires: final(wires)@,
            }) == step_gate(
                (SimState { gates: old(gates)@, wires: old(wires)@ }),
                gi as int,
                fault_enabled,
                faults@,
                fuel,
            ),
    decreases unresolved(gates@), 0nat, 0nat,
{
    let ghost st0 = (SimState { gates: gates@, wires: wires@ });
    proof {
        assert(gates@[gi as int] == gates.gatestack@[gi as int]@);
        assert(has_wire(st0.wires, st0.gates[gi as int].in_a) && has_wire(
            st0.wires,
            st0.gates[gi as int].in_b,
        ) && has_wire(st0.wires, st0.gates[gi as int].out));
    }
    let gval: Gates = gates.gatestack[gi];
    let ghost g1m = gate_with_inputs(st0, gi as int);
    let (outn, outv, de): (u32, FiveLogic, bool) = match gval {
        Gates::AND(mut g) => {
            let a = wires.level(g.net_in_a);
            let b = wires.level(g.net_in_b);
            g.input_a = a;
            g.input_b = b;
            let de = a != FiveLogic::U && b != FiveLogic::U && g.output == FiveLogic::U;
            if de {
                g.eval();
            }
            gates.gatestack[gi] = Gates::AND(g);
            proof {
                assert(gates@ =~= st0.gates.update(gi as int, Gates::AND(g)@));
                if de {
                    assert(Gates::AND(g)@ == GateView {
                        val_out: eval_result(
                            gate_table(st0.gates[gi as int].kind, g1m.val_a, g1m.val_b),
                            st0.gates[gi as int].val_out,
                        ),
                        ..g1m
                    });
                } else {
                    assert(Gates::AND(g)@ == g1m);
                }
            }
            (g.net_out, g.output, de)
        },
        Gates::OR(mut g) => {
            let a = wires.level(g.net_in_a);
            let b = wires.level(g.net_in_b);
            g.input_a = a;
            g.input_b = b;
            let de = a != FiveLogic::U && b != FiveLogic::U && g.output == FiveLogic::U;
            if de {
                g.eval();
            }
            gates.gatestack[gi] = Gates::OR(g);
            proof {
                assert(gates@ =~= st0.gates.update(gi as int, Gates::OR(g)@));
                if de {
                    assert(Gates::OR(g)@ == GateView {
                        val_out: eval_result(
                            gate_table(st0.gates[gi as int].kind, g1m.val_a, g1m.val_b),
                            st0.gates[gi as int].val_out,
                        ),
                        ..g1m
                    });
                } else {
                    assert(Gates::OR(g)@ == g1m);
                }
            }
            (g.net_out, g.output, de)
        },
        Gates::NAND(mut g) => {
            let a = wires.level(g.net_in_a);
            let b = wires.level(g.net_in_b);
            g.input_a = a;
            g.input_b = b;
            let de = a != FiveLogic::U && b != FiveLogic::U && g.output == FiveLogic::U;
            if de {
                g.eval();
            }
            gates.gatestack[gi] = Gates::NAND(g);
            proof {
                assert(gates@ =~= st0.gates.update(gi as int, Gates::NAND(g)@));
                if de {
                    assert(Gates::NAND(g)@ == GateView {
                        val_out: eval_result(
                            gate_table(st0.gates[gi as int].kind, g1m.val_a, g1m.val_b),
                            st0.gates[gi as int].val_out,
                        ),
                        ..g1m
                    });
                } else {
                    assert(Gates::NAND(g)@ == g1m);
                }
            }
            (g.net_out, g.output, de)
        },
        Gates::NOR(mut g) => {
            let a = wires.level(g.net_in_a);
            let b = wires.level(g.net_in_b);
            g.input_a = a;
            g.input_b = b;
            let de = a != FiveLogic::U && b != FiveLogic::U && g.output == FiveLogic::U;
            if de {
                g.eval();
            }
            gates.gatestack[gi] = Gates::NOR(g);
            proof {
                assert(gates@ =~= st0.gates.update(gi as int, Gates::NOR(g)@));
                if de {
                    assert(Gates::NOR(g)@ == GateView {
                        val_out: eval_result(
                            gate_table(st0.gates[gi as int].kind, g1m.val_a, g1m.val_b),
                            st0.gates[gi as int].val_out,
                        ),
                        ..g1m
                    });
                } else {
                    assert(Gates::NOR(g)@ == g1m);
                }
            }
            (g.net_out, g.output, de)
        },
        Gates::INV(mut g) => {
            let a = wires.level(g.net_in_a);
            g.input_a = a;
            let de = a != FiveLogic::U && g.output == FiveLogic::U;
            if de {
                g.eval();
            }
            gates.gatestack[gi] = Gates::INV(g);
            proof {
                assert(gates@ =~= st0.gates.update(gi as int, Gates::INV(g)@));
                if de {
                    assert(Gates::INV(g)@ == GateView {
                        val_out: eval_result(
                            gate_table(st0.gates[gi as int].kind, g1m.val_a, g1m.val_b),
                            st0.gates[gi as int].val_out,
                        ),
                        ..g1m
                    });
                } else {
                    assert(Gates::INV(g)@ == g1m);
                }
            }
            (g.net_out, g.output, de)
        },
        Gates::BUF(mut g) => {
            let a = wires.level(g.net_in_a);
            g.input_a = a;
            let de = a != FiveLogic::U && g.output == FiveLogic::U;
            if de {
                g.eval();
            }
            gates.gatestack[gi] = Gates::BUF(g);
            proof {
                assert(gates@ =~= st0.gates.update(gi as int, Gates::BUF(g)@));
                if de {
                    assert(Gates::BUF(g)@ == GateView {
                        val_out: eval_result(
                            gate_table(st0.gates[gi as int].kind, g1m.val_a, g1m.val_b),
                            st0.gates[gi as int].val_out,
                        ),
                        ..g1m
                    });
                } else {
                    assert(Gates::BUF(g)@ == g1m);
                }
            }
            (g.net_out, g.output, de)
        },
    };
    proof {
        assert(outn == st0.gates[gi as int].out);
        assert(de == (g1m.val_a != FiveLogic::U && g1m.val_b != FiveLogic::U && st0.gates[
            gi as int
        ].val_out == FiveLogic::U));
    }
    if de {
        let ghost g2m = GateView {
            val_out: eval_result(
                gate_table(st0.gates[gi as int].kind, g1m.val_a, g1m.val_b),
                st0.gates[gi as int].val_out,
            ),
            ..g1m
        };
        proof {
            assert(gates@ == st0.gates.update(gi as int, g2m));
            assert(outv == g2m.val_out);
            lemma_gate_table_resolves(st0.gates[gi as int].kind, g1m.val_a, g1m.val_b);
            lemma_wf_gate_update(st0, gi as int, g2m);
            lemma_unresolved_update(st0.gates, gi as int, g2m);
            lemma_unresolved_at_least_one(st0.gates, gi as int);
            assert(unresolved(gates@) == unresolved(st0.gates) - 1);
            assert(has_wire(wires@, outn));
        }
        let cur = wires.level(outn);
        if cur == FiveLogic::U {
            let eff = drive(faults, fault_enabled, outn, outv);
            wires.set_level(outn, eff);
            proof {
                lemma_wf_set_level(
                    (SimState { gates: gates@, wires: st0.wires }),
                    outn,
                    eff,
                );
                lemma_wire_index(st0.wires, outn);
                assert(wires_preserved(st0.wires, wires@));
            }
        }
        let ghost mid = (SimState { gates: gates@, wires: wires@ });
        proof {
            assert(wf(mid));
            assert(unresolved(mid.gates) == unresolved(st0.gates) - 1);
            assert(gates_preserved(st0.gates, mid.gates));
            assert(wires_preserved(st0.wires, mid.wires));
        }
        evalline(outn, gates, wires, fault_enabled, faults);
        proof {
            assert forall|fuel: nat| fuel >= unresolved(st0.gates) implies (SimState {
                gates: gates@,
                wires: wires@,
            }) == step_gate(st0, gi as int, fault_enabled, faults@, fuel) by {
                assert(fuel >= 1);
                assert((fuel - 1) as nat >= unresolved(mid.gates));
                assert(SimState { gates: gates@, wires: wires@ } == step_wire(
                    mid,
                    outn,
                    fault_enabled,
                    faults@,
                    (fuel - 1) as nat,
                ));
            }
        }
    } else {
        proof {
            assert(gates@ == st0.gates.update(gi as int, g1m));
            lemma_wf_gate_update(st0, gi as int, g1m);
            lemma_unresolved_update(st0.gates, gi as int, g1m);
            assert(wires@ == st0.wires);
            assert forall|fuel: nat| fuel >= unresolved(st0.gates) implies (SimState {
                gates: gates@,
                wires: wires@,
            }) == step_gate(st0, gi as int, fault_enabled, faults@, fuel) by {
            }
        }
    }
}

/// One executable pass over a fanout list from position `k` on; it leaves
/// the state exactly as `step_fanout` says.
fn eval_fanout(
    fo: &Vec<u32>,
    k: usize,
    gates: &mut GateStack,
    wires: &mut WireTable,
    fault_enabled: bool,
    faults: &FaultTable,
)
    requires
        wf(SimState { gates: old(gates)@, wires: old(wires)@ }),
        k <= fo@.len(),
        forall|j: int| 0 <= j < fo@.len() ==> (#[trigger] fo@[j] as int) < old(gates)@.len(),
    ensures
        wf(SimState { gates: final(gates)@, wires: final(wires)@ }),
        gates_preserved(old(gates)@, final(gates)@),
        wires_preserved(old(wires)@, final(wires)@),
        unresolved(final(gates)@) <= unresolved(old(gates)@),
        forall|fuel: nat|
            fuel >= unresolved(old(gates)@) ==> (SimState {
                gates: final(gates)@,
                wires: final(wires)@,
            }) == step_fanout(
                (SimState { gates: old(gates)@, wires: old(wires)@ }),
                fo@,
                k as int,
                fault_enabled,
                faults@,
                fuel,
            ),
    decreases unresolved(gates@), fo@.len() - k, 1nat,
{
    let ghost st0 = (SimState { gates: gates@, wires: wires@ });
    if k < fo.len() {
        let gi = fo[k] as usize;
        eval_gate(gi, gates, wires, fault_enabled, faults);
        let ghost mid = (SimState { gates: gates@, wires: wires@ });
        eval_fanout(fo, k + 1, gates, wires, fault_enabled, faults);
        proof {
            assert forall|fuel: nat| fuel >= unresolved(st0.gates) implies (SimState {
                gates: gates@,
                wires: wires@,
            }) == step_fanout(st0, fo@, k as int, fault_enabled, faults@, fuel) by {
                assert(mid == step_gate(st0, gi as int, fault_enabled, faults@, fuel));
                assert(fuel >= unresolved(mid.gates));
                assert(SimState { gates: gates@, wires: wires@ } == step_fanout(
                    mid,
                    fo@,
                    k + 1,
                    fault_enabled,
                    faults@,
                    fuel,
                ));
            }
        }
    }
}

/// One propagation pass from net `w`, as the original engine makes it: the
/// wire is created on first reference, and every gate in its fanout list is
/// visited in order, evaluating and propagating further wherever a gate has
/// just become resolvable. The pass leaves the state exactly as `step_wire`
/// says; a resolved net is never re-driven, and each pass strictly shrinks
/// or keeps the set of unresolved gates.
pub fn evalline(
    currentwire: u32,
    gates: &mut GateStack,
    wires: &mut WireTable,
    fault_enabled: bool,
    faults: &FaultTable,
)
    requires
        wf(SimState { gates: old(gates)@, wires: old(wires)@ }),
    ensures
        wf(SimState { gates: final(gates)@, wires: final(wires)@ }),
        gates_preserved(old(gates)@, final(gates)@),
        wires_preserved(old(wires)@, final(wires)@),
        unresolved(final(gates)@) <= unresolved(old(gates)@),
        forall|fuel: nat|
            fuel >= unresolved(old(gates)@) ==> (SimState {
                gates: final(gates)@,
                wires: final(wires)@,
            }) == step_wire(
                (SimState { gates: old(gates)@, wires: old(wires)@ }),
                currentwire,
                fault_enabled,
                faults@,
                fuel,
            ),
        forall|n: u32|
            has_wire(old(wires)@, n) && level_of(old(wires)@, n) != FiveLogic::U ==> has_wire(
                final(wires)@,
                n,
            ) && level_of(final(wires)@, n) == level_of(old(wires)@, n),
    decreases unresolved(gates@), start_fanout(SimState { gates: gates@, wires: wires@ }, currentwire).len(), 2nat,
{
    let ghost st0 = (SimState { gates: gates@, wires: wires@ });
    wires.ensure_wire(currentwire);
    proof {
        lemma_wf_ensure(st0, currentwire);
        lemma_wire_index(st0.wires, currentwire);
        if !has_wire(st0.wires, currentwire) {
            lemma_wire_index_push(
                st0.wires,
                crate::wires::fresh_wire(currentwire),
                currentwire,
            );
        }
        assert(has_wire(wires@, currentwire));
    }
    let fo = wires.fanout_of(currentwire);
    let ghost st1 = (SimState { gates: gates@, wires: wires@ });
    proof {
        assert(fo@ == start_fanout(st0, currentwire));
        assert(st1 == (SimState {
            gates: st0.gates,
            wires: ensure_wire_spec(st0.wires, currentwire),
        }));
        assert(forall|j: int|
            0 <= j < fo@.len() ==> (#[trigger] fo@[j] as int) < gates@.len());
    }
    eval_fanout(&fo, 0, gates, wires, fault_enabled, faults);
    proof {
        assert forall|fuel: nat| fuel >= unresolved(st0.gates) implies (SimState {
            gates: gates@,
            wires: wires@,
        }) == step_wire(st0, currentwire, fault_enabled, faults@, fuel) by {
            assert(SimState { gates: gates@, wires: wires@ } == step_fanout(
                st1,
                fo@,
                0,
                fault_enabled,
                faults@,
                fuel,
            ));
        }
        assert(wires_preserved(st0.wires, wires@));
        assert forall|n: u32|
            has_wire(st0.wires, n) && level_of(st0.wires, n) != FiveLogic::U implies has_wire(
            wires@,
            n,
        ) && level_of(wires@, n) == level_of(st0.wires, n) by {
            lemma_wire_index(st0.wires, n);
            lemma_wire_index_stable(st0.wires, wires@, n);
            assert(wires@[wire_index(st0.wires, n)].level == st0.wires[wire_index(
                st0.wires,
                n,
            )].level);
        }
    }
}

/// The level a primary input is seeded to: `0` drives `ZERO`, `1` drives
/// `ONE`, and any other byte drives `X`.
pub open spec fn seed_value(x: u8) -> FiveLogic {
    if x == 0 {
        FiveLogic::ZERO
    } else if x == 1 {
        FiveLogic::ONE
    } else {
        FiveLogic::X
    }
}

/// The directory after one primary input has been seeded: the wire is
/// created on first reference and driven, with its stuck-at annotation
/// applied at the point it is driven.
pub open spec fn seed_one(ws: Seq<WireView>, n: u32, x: u8, en: bool, ft: Seq<u8>) -> Seq<
    WireView,
> {
    set_level_spec(ensure_wire_spec(ws, n), n, drive_spec(ft, en, n, seed_value(x)))
}

/// The directory after the primary inputs from position `k` on have been
/// seeded from the input vector, in list order.
pub open spec fn seed_from(
    ws: Seq<WireView>,
    ins: Seq<u32>,
    iv: Seq<u8>,
    k: int,
    en: bool,
    ft: Seq<u8>,
) -> Seq<WireView>
    decreases ins.len() - k,
{
    if 0 <= k < ins.len() {
        seed_from(seed_one(ws, ins[k], iv[k], en, ft), ins, iv, k + 1, en, ft)
    } else {
        ws
    }
}

/// Whether every primary output carries a non-`U` level.
pub open spec fn all_outputs_resolved(ws: Seq<WireView>, outs: Seq<u32>) -> bool {
    forall|j: int| 0 <= j < outs.len() ==> level_of(ws, #[trigger] outs[j]) != FiveLogic::U
}

/// The state after the propagation passes from the primary inputs at
/// position `k` on, stopping early once every primary output is resolved.
pub open spec fn passes_from(
    st: SimState,
    ins: Seq<u32>,
    outs: Seq<u32>,
    k: int,
    en: bool,
    ft: Seq<u8>,
) -> SimState
    decreases ins.len() - k,
{
    if 0 <= k < ins.len() {
        let st1 = step_wire(st, ins[k], en, ft, unresolved(st.gates));
        if all_outputs_resolved(st1.wires, outs) {
            st1
        } else {
            passes_from(st1, ins, outs, k + 1, en, ft)
        }
    } else {
        st
    }
}

/// The state a whole run leaves behind: every primary input seeded from the
/// input vector, then one propagation pass per input in list order, with an
/// early stop once every primary output is resolved.
pub open spec fn sim_model(
    st: SimState,
    ins: Seq<u32>,
    outs: Seq<u32>,
    iv: Seq<u8>,
    en: bool,
    ft: Seq<u8>,
) -> SimState {
    let seeded = (SimState { gates: st.gates, wires: seed_from(st.wires, ins, iv, 0, en, ft) });
    passes_from(seeded, ins, outs, 0, en, ft)
}

/// The levels of the given nets, in list order.
pub open spec fn read_levels(ws: Seq<WireView>, outs: Seq<u32>) -> Seq<FiveLogic> {
    Seq::new(outs.len(), |j: int| level_of(ws, outs[j]))
}

/// What a whole run reports: the level of every primary output, in list
/// order, in the state the run leaves behind.
pub open spec fn sim_outputs(
    st: SimState,
    ins: Seq<u32>,
    outs: Seq<u32>,
    iv: Seq<u8>,
    en: bool,
    ft: Seq<u8>,
) -> Seq<FiveLogic> {
    read_levels(sim_model(st, ins, outs, iv, en, ft).wires, outs)
}

/// A whole simulation run. Primary inputs are seeded from the input vector
/// in list order (`0` drives `ZERO`, `1` drives `ONE`, anything else `X`);
/// one propagation pass runs per primary input, stopping early once every
/// primary output is resolved; the level of every primary output is
/// reported in list order, `U` marking an output that propagation never
/// reached. Stuck-at annotations are applied wherever a net is driven — at
/// seeding and at gate-output assignment — so a fault on any net, primary
/// or internal, takes effect.
pub fn simulate(
    gates: &mut GateStack,
    wires: &mut WireTable,
    inputs: &Vec<u32>,
    outputs: &Vec<u32>,
    inputvec: &Vec<u8>,
    fault_enabled: bool,
    faults: &FaultTable,
) -> (r: Vec<FiveLogic>)
    requires
        wf(SimState { gates: old(gates)@, wires: old(wires)@ }),
        inputvec@.len() == inputs@.len(),
        forall|j: int| 0 <= j < outputs@.len() ==> has_wire(old(wires)@, #[trigger] outputs@[j]),
    ensures
        (SimState { gates: final(gates)@, wires: final(wires)@ }) == sim_model(
            (SimState { gates: old(gates)@, wires: old(wires)@ }),
            inputs@,
            outputs@,
            inputvec@,
            fault_enabled,
            faults@,
        ),
        r@ == sim_outputs(
            (SimState { gates: old(gates)@, wires: old(wires)@ }),
            inputs@,
            outputs@,
            inputvec@,
            fault_enabled,
            faults@,
        ),
        r@.len() == outputs@.len(),
        wf(SimState { gates: final(gates)@, wires: final(wires)@ }),
{
    let ghost st0 = (SimState { gates: gates@, wires: wires@ });
    let mut m: usize = 0;
    while m < inputs.len()
        invariant
            m <= inputs@.len(),
            inputvec@.len() == inputs@.len(),
            gates@ == old(gates)@,
            seed_from(old(wires)@, inputs@, inputvec@, 0, fault_enabled, faults@) == seed_from(
                wires@,
                inputs@,
                inputvec@,
                m as int,
                fault_enabled,
                faults@,
            ),
            wf(SimState { gates: gates@, wires: wires@ }),
            forall|j: int| 0 <= j < outputs@.len() ==> has_wire(wires@, #[trigger] outputs@[j]),
        decreases inputs@.len() - m,
    {
        let ghost wpre = wires@;
        let n = inputs[m];
        wires.ensure_wire(n);
        proof {
            lemma_wf_ensure(SimState { gates: gates@, wires: wpre }, n);
            lemma_has_self_after_ensure(wpre, n);
            assert forall|j: int| 0 <= j < outputs@.len() implies has_wire(
                wires@,
                #[trigger] outputs@[j],
            ) by {
                lemma_has_after_ensure(wpre, n, outputs@[j]);
            }
        }
        let ghost wmid = wires@;
        let x = inputvec[m];
        let sv = if x == 0 {
            FiveLogic::ZERO
        } else if x == 1 {
            FiveLogic::ONE
        } else {
            FiveLogic::X
        };
        let eff = drive(faults, fault_enabled, n, sv);
        wires.set_level(n, eff);
        proof {
            lemma_wf_set_level(SimState { gates: gates@, wires: wmid }, n, eff);
            assert forall|j: int| 0 <= j < outputs@.len() implies has_wire(
                wires@,
                #[trigger] outputs@[j],
            ) by {
                lemma_has_after_set_level(wmid, n, eff, outputs@[j]);
            }
            assert(wires@ == seed_one(wpre, inputs@[m as int], inputvec@[m as int], fault_enabled, faults@));
        }
        m = m + 1;
    }
    let ghost seeded = (SimState { gates: gates@, wires: wires@ });
    proof {
        assert(seeded.wires == seed_from(old(wires)@, inputs@, inputvec@, 0, fault_enabled, faults@));
    }
    let mut i: usize = 0;
    let mut done = false;
    while i < inputs.len() && !done
        invariant
            i <= inputs@.len(),
            wf(SimState { gates: gates@, wires: wires@ }),
            forall|j: int| 0 <= j < outputs@.len() ==> has_wire(wires@, #[trigger] outputs@[j]),
            !done ==> passes_from(seeded, inputs@, outputs@, 0, fault_enabled, faults@)
                == passes_from(
                (SimState { gates: gates@, wires: wires@ }),
                inputs@,
                outputs@,
                i as int,
                fault_enabled,
                faults@,
            ),
            done ==> (SimState { gates: gates@, wires: wires@ }) == passes_from(
                seeded,
                inputs@,
                outputs@,
                0,
                fault_enabled,
                faults@,
            ),
        decreases inputs@.len() - i,
    {
        let ghost cur = (SimState { gates: gates@, wires: wires@ });
        evalline(inputs[i], gates, wires, fault_enabled, faults);
        let ghost st1 = (SimState { gates: gates@, wires: wires@ });
        proof {
            assert(st1 == step_wire(
                cur,
                inputs@[i as int],
                fault_enabled,
                faults@,
                unresolved(cur.gates),
            ));
            assert forall|j: int| 0 <= j < outputs@.len() implies has_wire(
                wires@,
                #[trigger] outputs@[j],
            ) by {
                lemma_wire_index_stable(cur.wires, wires@, outputs@[j]);
            }
        }
        let mut all = true;
        let mut j: usize = 0;
        while j < outputs.len()
            invariant
                j <= outputs@.len(),
                gates@ == st1.gates,
                wires@ == st1.wires,
                forall|q: int| 0 <= q < outputs@.len() ==> has_wire(
                    wires@,
                    #[trigger] outputs@[q],
                ),
                all <==> (forall|q: int|
                    0 <= q < j ==> level_of(wires@, #[trigger] outputs@[q]) != FiveLogic::U),
            decreases outputs@.len() - j,
        {
            let lv = wires.level(outputs[j]);
            if lv == FiveLogic::U {
                all = false;
            }
            j = j + 1;
        }
        if all {
            done = true;
        }
        proof {
            assert(all == all_outputs_resolved(st1.wires, outputs@));
        }
        i = i + 1;
    }
    let ghost sfinal = (SimState { gates: gates@, wires: wires@ });
    proof {
        assert(sfinal == passes_from(seeded, inputs@, outputs@, 0, fault_enabled, faults@));
        assert(sfinal == sim_model(st0, inputs@, outputs@, inputvec@, fault_enabled, faults@));
    }
    let mut r: Vec<FiveLogic> = Vec::new();
    let mut j: usize = 0;
    while j < outputs.len()
        invariant
            j <= outputs@.len(),
            gates@ == sfinal.gates,
            wires@ == sfinal.wires,
            forall|q: int| 0 <= q < outputs@.len() ==> has_wire(wires@, #[trigger] outputs@[q]),
            r@.len() == j,
            forall|q: int| 0 <= q < j ==> r@[q] == level_of(wires@, #[trigger] outputs@[q]),
        decreases outputs@.len() - j,
    {
        let lv = wires.level(outputs[j]);
        r.push(lv);
        j = j + 1;
    }
    proof {
        assert(r@ =~= read_levels(sfinal.wires, outputs@));
    }
    r
}

/// Determinism: the outcome of a run — the state left behind and the
/// reported output levels — is a function of the starting netlist state,
/// the port lists, the input vector, and the fault table alone; re-running
/// on an equal fresh copy yields identical output levels.
pub proof fn lemma_simulate_deterministic(
    st1: SimState,
    st2: SimState,
    ins: Seq<u32>,
    outs: Seq<u32>,
    iv: Seq<u8>,
    en: bool,
    ft: Seq<u8>,
)
    requires
        st1 == st2,
    ensures
        sim_model(st1, ins, outs, iv, en, ft) == sim_model(st2, ins, outs, iv, en, ft),
        sim_outputs(st1, ins, outs, iv, en, ft) == sim_outputs(st2, ins, outs, iv, en, ft),
{
}

} // verus!
