//! Netlist graph construction from parsed records.
//!
//! A record is one line of the netlist: a gate with its input and output
//! net identifiers, or a primary-input or primary-output declaration. For
//! every net a gate reads, that gate's stack index is appended to the net's
//! fanout list, with the wire created on first reference; a net a gate
//! drives is created but its own driver is never entered in its fanout. A
//! port identifier of `-1` is a placeholder and is skipped. A record with
//! the wrong arity for its gate kind, or with a net identifier that is not
//! a non-negative integer fitting the identifier width, fails construction
//! with a malformed-netlist error before any simulation starts.

use vstd::prelude::*;

use crate::algebra::FiveLogic;
use crate::engine::{fanout_bounded, gate_nets_present, lemma_wire_index_stable, wf, wires_unique, SimState};
use crate::gate::{
    ANDGate, BUFGate, GateKind, GateStack, GateView, Gates, NANDGate, NORGate, NOTGate, ORGate,
};
use crate::wires::{
    add_input_use_spec, ensure_wire_spec, fresh_wire, has_wire, lemma_wire_index,
    lemma_wire_index_push, lemma_wire_index_update, mark_spec, wire_index, WireTable, WireType,
    WireView,
};

verus! {

/// The failures of a run: a netlist record that cannot be built from, or a
/// fault-list line that cannot be read. Either is fatal and reported before
/// simulation starts.
#[derive(Debug, PartialEq, Eq, Structural, Clone, Copy)]
pub enum SimError {
    MalformedNetlist,
    MalformedFaultRecord,
}

/// One parsed netlist record: a gate with its net identifiers, or a
/// primary-port declaration. Identifiers are kept as signed integers so
/// that the `-1` placeholder and out-of-range values can be judged here.
pub enum NetlistRecord {
    Gate(GateKind, Vec<i64>),
    Input(Vec<i64>),
    Output(Vec<i64>),
}

/// The mathematical image of a record.
pub enum RecordView {
    Gate(GateKind, Seq<i64>),
    Input(Seq<i64>),
    Output(Seq<i64>),
}

impl View for NetlistRecord {
    type V = RecordView;

    open spec fn view(&self) -> RecordView {
        match *self {
            NetlistRecord::Gate(kind, ref ids) => RecordView::Gate(kind, ids@),
            NetlistRecord::Input(ref ids) => RecordView::Input(ids@),
            NetlistRecord::Output(ref ids) => RecordView::Output(ids@),
        }
    }
}

pub open spec fn records_view(rs: Seq<NetlistRecord>) -> Seq<RecordView> {
    rs.map_values(|r: NetlistRecord| r@)
}

/// Everything construction accumulates: the stack of gates, the net directory,
/// and the ordered primary-port lists.
pub struct BuildState {
    pub gates: Seq<GateView>,
    pub wires: Seq<WireView>,
    pub ins: Seq<u32>,
    pub outs: Seq<u32>,
}

pub open spec fn empty_build() -> BuildState {
    BuildState { gates: Seq::empty(), wires: Seq::empty(), ins: Seq::empty(), outs: Seq::empty() }
}

/// Whether a gate kind reads two nets.
pub open spec fn is_binary(kind: GateKind) -> bool {
    kind == GateKind::And || kind == GateKind::Or || kind == GateKind::Nand || kind
        == GateKind::Nor
}

/// A gate's net identifier must be a non-negative integer that fits the
/// identifier width.
pub open spec fn ok_id(id: i64) -> bool {
    0 <= id && id <= 0xffff_ffff
}

/// A fresh gate: its net wiring fixed, every cached value not yet computed.
/// A unary gate's single input stands in both input slots.
pub open spec fn fresh_gate(kind: GateKind, a: u32, b: u32, o: u32) -> GateView {
    GateView {
        kind: kind,
        in_a: a,
        in_b: b,
        out: o,
        val_a: FiveLogic::U,
        val_b: FiveLogic::U,
        val_out: FiveLogic::U,
    }
}

/// The build state after one gate record, or `None` when the record has the
/// wrong arity or an identifier out of range.
pub open spec fn gate_record_step(bs: BuildState, kind: GateKind, ids: Seq<i64>) -> Option<
    BuildState,
> {
    let gidx = bs.gates.len() as u32;
    if is_binary(kind) {
        if ids.len() == 3 && ok_id(ids[0]) && ok_id(ids[1]) && ok_id(ids[2]) {
            let a = ids[0] as u32;
            let b = ids[1] as u32;
            let o = ids[2] as u32;
            let ws = ensure_wire_spec(
                add_input_use_spec(add_input_use_spec(bs.wires, a, gidx), b, gidx),
                o,
            );
            Some(
                (BuildState {
                    gates: bs.gates.push(fresh_gate(kind, a, b, o)),
                    wires: ws,
                    ..bs
                }),
            )
        } else {
            None
        }
    } else {
        if ids.len() == 2 && ok_id(ids[0]) && ok_id(ids[1]) {
            let a = ids[0] as u32;
            let o = ids[1] as u32;
            let ws = ensure_wire_spec(add_input_use_spec(bs.wires, a, gidx), o);
            Some(
                (BuildState {
                    gates: bs.gates.push(fresh_gate(kind, a, a, o)),
                    wires: ws,
                    ..bs
                }),
            )
        } else {
            None
        }
    }
}

/// The build state after the port identifiers from position `k` on: `-1` is
/// skipped, any other negative or oversized identifier is malformed, and an
/// accepted identifier classifies its wire (when present) and joins the
/// ordered port list.
pub open spec fn port_step(bs: BuildState, ids: Seq<i64>, is_input: bool, k: int) -> Option<
    BuildState,
>
    decreases ids.len() - k,
{
    if 0 <= k < ids.len() {
        let id = ids[k];
        if id == -1 {
            port_step(bs, ids, is_input, k + 1)
        } else if !ok_id(id) {
            None
        } else {
            let n = id as u32;
            let bs1 = if is_input {
                BuildState {
                    wires: mark_spec(bs.wires, n, WireType::PrimaryInput),
                    ins: bs.ins.push(n),
                    ..bs
                }
            } else {
                BuildState {
                    wires: mark_spec(bs.wires, n, WireType::PrimaryOutput),
                    outs: bs.outs.push(n),
                    ..bs
                }
            };
            port_step(bs1, ids, is_input, k + 1)
        }
    } else {
        Some(bs)
    }
}

/// The build state after one record.
pub open spec fn record_step(bs: BuildState, r: RecordView) -> Option<BuildState> {
    match r {
        RecordView::Gate(kind, ids) => gate_record_step(bs, kind, ids),
        RecordView::Input(ids) => port_step(bs, ids, true, 0),
        RecordView::Output(ids) => port_step(bs, ids, false, 0),
    }
}

/// The build state after a sequence of records, or `None` as soon as one of
/// them is malformed.
pub open spec fn build_model(recs: Seq<RecordView>) -> Option<BuildState>
    decreases recs.len(),
{
    if recs.len() == 0 {
        Some(empty_build())
    } else {
        match build_model(recs.drop_last()) {
            Some(bs) => record_step(bs, recs.last()),
            None => None,
        }
    }
}

/// A malformed prefix makes the whole sequence malformed.
pub proof fn lemma_build_model_none(recs: Seq<RecordView>, k: int)
    requires
        0 <= k <= recs.len(),
        build_model(recs.take(k)).is_none(),
    ensures
        build_model(recs).is_none(),
    decreases recs.len() - k,
{
    if k < recs.len() {
        assert(recs.take(k + 1).drop_last() =~= recs.take(k));
        lemma_build_model_none(recs, k + 1);
    } else {
        assert(recs.take(k) =~= recs);
    }
}

/// Recording a consumer keeps the directory's keys unique, keeps every
/// present wire findable, makes `n` findable, and bounds every fanout entry
/// by any bound that covers both the old entries and the new index.
pub proof fn lemma_add_input_use_wf(ws: Seq<WireView>, n: u32, g: u32, b: int)
    requires
        wires_unique(ws),
        fanout_bounded(ws, b),
        (g as int) < b,
    ensures
        ({
            let ws1 = add_input_use_spec(ws, n, g);
            &&& wires_unique(ws1)
            &&& fanout_bounded(ws1, b)
            &&& has_wire(ws1, n)
            &&& ws1.len() >= ws.len()
            &&& forall|i: int|
                0 <= i < ws.len() ==> (#[trigger] ws1[i]).net == ws[i].net && ws1[i].level
                    == ws[i].level
        }),
{
    let ws1 = add_input_use_spec(ws, n, g);
    lemma_wire_index(ws, n);
    if has_wire(ws, n) {
        let i = wire_index(ws, n);
        lemma_wire_index_update(ws, i, ws1[i], n);
        assert forall|p: int, q: int|
            0 <= p < ws1.len() && 0 <= q < ws1[p].fanout.len() implies (#[trigger] ws1[p].fanout[q]
            as int) < b by {
            if p == i && q == ws[i].fanout.len() {
            } else {
                assert(ws1[p].fanout[q] == ws[p].fanout[q]);
            }
        }
    } else {
        lemma_wire_index_push(ws, ws1.last(), n);
        assert forall|p: int, q: int|
            0 <= p < ws1.len() && 0 <= q < ws1[p].fanout.len() implies (#[trigger] ws1[p].fanout[q]
            as int) < b by {
            if p < ws.len() {
                assert(ws1[p].fanout[q] == ws[p].fanout[q]);
            } else {
                assert(ws1[p].fanout =~= seq![g]);
            }
        }
    }
}

/// Creating a wire on first reference keeps uniqueness, findability and any
/// fanout bound.
pub proof fn lemma_ensure_wf(ws: Seq<WireView>, n: u32, b: int)
    requires
        wires_unique(ws),
        fanout_bounded(ws, b),
    ensures
        ({
            let ws1 = ensure_wire_spec(ws, n);
            &&& wires_unique(ws1)
            &&& fanout_bounded(ws1, b)
            &&& has_wire(ws1, n)
            &&& ws1.len() >= ws.len()
            &&& forall|i: int|
                0 <= i < ws.len() ==> (#[trigger] ws1[i]).net == ws[i].net && ws1[i].level
                    == ws[i].level
        }),
{
    let ws1 = ensure_wire_spec(ws, n);
    lemma_wire_index(ws, n);
    if !has_wire(ws, n) {
        lemma_wire_index_push(ws, fresh_wire(n), n);
        assert forall|p: int, q: int|
            0 <= p < ws1.len() && 0 <= q < ws1[p].fanout.len() implies (#[trigger] ws1[p].fanout[q]
            as int) < b by {
            assert(p < ws.len());
            assert(ws1[p].fanout[q] == ws[p].fanout[q]);
        }
    }
}

/// Classifying a wire moves nothing and renames nothing.
pub proof fn lemma_mark_wf(ws: Seq<WireView>, n: u32, t: WireType, b: int)
    requires
        wires_unique(ws),
        fanout_bounded(ws, b),
    ensures
        ({
            let ws1 = mark_spec(ws, n, t);
            &&& wires_unique(ws1)
            &&& fanout_bounded(ws1, b)
            &&& ws1.len() == ws.len()
            &&& forall|i: int|
                0 <= i < ws.len() ==> (#[trigger] ws1[i]).net == ws[i].net && ws1[i].level
                    == ws[i].level && ws1[i].fanout == ws[i].fanout
        }),
{
    lemma_wire_index(ws, n);
    let ws1 = mark_spec(ws, n, t);
    assert forall|p: int, q: int|
        0 <= p < ws1.len() && 0 <= q < ws1[p].fanout.len() implies (#[trigger] ws1[p].fanout[q]
        as int) < b by {
        assert(ws1[p].fanout == ws[p].fanout);
    }
}

/// Builds the netlist graph from parsed records: the stack of gates, the net
/// directory with every fanout list, and the ordered primary-input and
/// primary-output net lists. Fails with a malformed-netlist error exactly
/// when some record has the wrong arity for its gate kind or a net
/// identifier that is not a non-negative integer fitting the identifier
/// width (`-1` being the port placeholder); nothing is simulated then.
pub fn build_netlist(records: &Vec<NetlistRecord>) -> (r: Result<
    (GateStack, WireTable, Vec<u32>, Vec<u32>),
    SimError,
>)
    requires
        records@.len() < u32::MAX as nat,
    ensures
        match r {
            Ok(out) => {
                &&& build_model(records_view(records@)) == Some(
                    (BuildState {
                        gates: out.0@,
                        wires: out.1@,
                        ins: out.2@,
                        outs: out.3@,
                    }),
                )
                &&& wf((SimState { gates: out.0@, wires: out.1@ }))
            },
            Err(e) => {
                &&& build_model(records_view(records@)).is_none()
                &&& e == SimError::MalformedNetlist
            },
        },
{
    let mut gates = GateStack { gatestack: Vec::new() };
    let mut wires = WireTable::new();
    let mut instack: Vec<u32> = Vec::new();
    let mut outstack: Vec<u32> = Vec::new();
    let ghost rv = records_view(records@);
    proof {
        assert(rv.take(0) =~= Seq::<RecordView>::empty());
        assert(gates@ =~= Seq::<GateView>::empty());
        assert(build_model(rv.take(0)) == Some(
            (BuildState {
                gates: gates@,
                wires: wires@,
                ins: instack@,
                outs: outstack@,
            }),
        ));
    }
    let mut idx: usize = 0;
    while idx < records.len()
        invariant
            idx <= records@.len(),
            records@.len() < u32::MAX as nat,
            rv == records_view(records@),
            rv.len() == records@.len(),
            build_model(rv.take(idx as int)) == Some(
                (BuildState {
                    gates: gates@,
                    wires: wires@,
                    ins: instack@,
                    outs: outstack@,
                }),
            ),
            wires_unique(wires@),
            gate_nets_present(gates@, wires@),
            fanout_bounded(wires@, gates@.len() as int),
            gates@.len() <= idx,
        decreases records@.len() - idx,
    {
        let ghost bs0 = BuildState {
            gates: gates@,
            wires: wires@,
            ins: instack@,
            outs: outstack@,
        };
        proof {
            assert(rv[idx as int] == records@[idx as int]@);
            assert(rv.take(idx + 1).drop_last() =~= rv.take(idx as int));
            assert(rv.take(idx + 1).last() == rv[idx as int]);
        }
        let rec = &records[idx];
        match rec {
            NetlistRecord::Gate(kind, ids) => {
                let k2 = *kind;
                let binary = match k2 {
                    GateKind::And | GateKind::Or | GateKind::Nand | GateKind::Nor => true,
                    GateKind::Inv | GateKind::Buf => false,
                };
                let need: usize = if binary {
                    3
                } else {
                    2
                };
                if ids.len() != need {
                    proof {
                        lemma_build_model_none(rv, idx + 1);
                    }
                    return Err(SimError::MalformedNetlist);
                }
                let id_a = ids[0];
                let id_last = ids[need - 1];
                if id_a < 0 || id_a > u32::MAX as i64 || id_last < 0 || id_last > u32::MAX as i64 {
                    proof {
                        lemma_build_model_none(rv, idx + 1);
                    }
                    return Err(SimError::MalformedNetlist);
                }
                if binary {
                    let id_b = ids[1];
                    if id_b < 0 || id_b > u32::MAX as i64 {
                        proof {
                            lemma_build_model_none(rv, idx + 1);
                        }
                        return Err(SimError::MalformedNetlist);
                    }
                    let a = id_a as u32;
                    let b = id_b as u32;
                    let o = id_last as u32;
                    let gidx = gates.gatestack.len() as u32;
                    proof {
                        lemma_add_input_use_wf(wires@, a, gidx, gates@.len() as int + 1);
                        lemma_add_input_use_wf(
                            add_input_use_spec(wires@, a, gidx),
                            b,
                            gidx,
                            gates@.len() as int + 1,
                        );
                        lemma_ensure_wf(
                            add_input_use_spec(add_input_use_spec(wires@, a, gidx), b, gidx),
                            o,
                            gates@.len() as int + 1,
                        );
                    }
                    wires.add_input_use(a, gidx);
                    wires.add_input_use(b, gidx);
                    wires.ensure_wire(o);
                    let gnew: Gates = match k2 {
                        GateKind::And => Gates::AND(
                            ANDGate {
                                net_in_a: a,
                                net_in_b: b,
                                net_out: o,
                                input_a: FiveLogic::U,
                                input_b: FiveLogic::U,
                                output: FiveLogic::U,
                            },
                        ),
                        GateKind::Or => Gates::OR(
                            ORGate {
                                net_in_a: a,
                                net_in_b: b,
                                net_out: o,
                                input_a: FiveLogic::U,
                                input_b: FiveLogic::U,
                                output: FiveLogic::U,
                            },
                        ),
                        GateKind::Nand => Gates::NAND(
                            NANDGate {
                                net_in_a: a,
                                net_in_b: b,
                                net_out: o,
                                input_a: FiveLogic::U,
                                input_b: FiveLogic::U,
                                output: FiveLogic::U,
                            },
                        ),
                        GateKind::Nor => Gates::NOR(
                            NORGate {
                                net_in_a: a,
                                net_in_b: b,
                                net_out: o,
                                input_a: FiveLogic::U,
                                input_b: FiveLogic::U,
                                output: FiveLogic::U,
                            },
                        ),
                        _ => unreached(),
                    };
                    gates.gatestack.push(gnew);
                    proof {
                        assert(gates@ =~= bs0.gates.push(fresh_gate(k2, a, b, o)));
                        assert(build_model(rv.take(idx + 1)) == Some(
                            (BuildState {
                                gates: gates@,
                                wires: wires@,
                                ins: instack@,
                                outs: outstack@,
                            }),
                        ));
                        assert forall|i: int|
                            0 <= i < gates@.len() implies has_wire(
                            wires@,
                            (#[trigger] gates@[i]).in_a,
                        ) && has_wire(wires@, gates@[i].in_b) && has_wire(
                            wires@,
                            gates@[i].out,
                        ) by {
                            let ws1 = add_input_use_spec(bs0.wires, a, gidx);
                            let ws2 = add_input_use_spec(ws1, b, gidx);
                            if i < bs0.gates.len() {
                                assert(gates@[i] == bs0.gates[i]);
                                lemma_wire_index_stable(bs0.wires, ws1, bs0.gates[i].in_a);
                                lemma_wire_index_stable(bs0.wires, ws1, bs0.gates[i].in_b);
                                lemma_wire_index_stable(bs0.wires, ws1, bs0.gates[i].out);
                                lemma_wire_index_stable(ws1, ws2, bs0.gates[i].in_a);
                                lemma_wire_index_stable(ws1, ws2, bs0.gates[i].in_b);
                                lemma_wire_index_stable(ws1, ws2, bs0.gates[i].out);
                                lemma_wire_index_stable(ws2, wires@, bs0.gates[i].in_a);
                                lemma_wire_index_stable(ws2, wires@, bs0.gates[i].in_b);
                                lemma_wire_index_stable(ws2, wires@, bs0.gates[i].out);
                            } else {
                                lemma_wire_index_stable(ws1, ws2, a);
                                lemma_wire_index_stable(ws2, wires@, a);
                                lemma_wire_index_stable(ws2, wires@, b);
                            }
                        }
                    }
                } else {
                    let a = id_a as u32;
                    let o = id_last as u32;
                    let gidx = gates.gatestack.len() as u32;
                    proof {
                        lemma_add_input_use_wf(wires@, a, gidx, gates@.len() as int + 1);
                        lemma_ensure_wf(
                            add_input_use_spec(wires@, a, gidx),
                            o,
                            gates@.len() as int + 1,
                        );
                    }
                    wires.add_input_use(a, gidx);
                    wires.ensure_wire(o);
                    let gnew: Gates = match k2 {
                        GateKind::Inv => Gates::INV(
                            NOTGate {
                                net_in_a: a,
                                net_out: o,
                                input_a: FiveLogic::U,
                                output: FiveLogic::U,
                            },
                        ),
                        GateKind::Buf => Gates::BUF(
                            BUFGate {
                                net_in_a: a,
                                net_out: o,
                                input_a: FiveLogic::U,
                                output: FiveLogic::U,
                            },
                        ),
                        _ => unreached(),
                    };
                    gates.gatestack.push(gnew);
                    proof {
                        assert(gates@ =~= bs0.gates.push(fresh_gate(k2, a, a, o)));
                        assert(build_model(rv.take(idx + 1)) == Some(
                            (BuildState {
                                gates: gates@,
                                wires: wires@,
                                ins: instack@,
                                outs: outstack@,
                            }),
                        ));
                        assert forall|i: int|
                            0 <= i < gates@.len() implies has_wire(
                            wires@,
                            (#[trigger] gates@[i]).in_a,
                        ) && has_wire(wires@, gates@[i].in_b) && has_wire(
                            wires@,
                            gates@[i].out,
                        ) by {
                            let ws1 = add_input_use_spec(bs0.wires, a, gidx);
                            if i < bs0.gates.len() {
                                assert(gates@[i] == bs0.gates[i]);
                                lemma_wire_index_stable(bs0.wires, ws1, bs0.gates[i].in_a);
                                lemma_wire_index_stable(bs0.wires, ws1, bs0.gates[i].in_b);
                                lemma_wire_index_stable(bs0.wires, ws1, bs0.gates[i].out);
                                lemma_wire_index_stable(ws1, wires@, bs0.gates[i].in_a);
                                lemma_wire_index_stable(ws1, wires@, bs0.gates[i].in_b);
                                lemma_wire_index_stable(ws1, wires@, bs0.gates[i].out);
                            } else {
                                lemma_wire_index_stable(ws1, wires@, a);
                            }
                        }
                    }
                }
            },
            NetlistRecord::Input(ids) => {
                let mut t: usize = 0;
                while t < ids.len()
                    invariant
                        t <= ids@.len(),
                        port_step(bs0, ids@, true, 0) == port_step(
                            (BuildState {
                                gates: gates@,
                                wires: wires@,
                                ins: instack@,
                                outs: outstack@,
                            }),
                            ids@,
                            true,
                            t as int,
                        ),
                        idx < records@.len(),
                        rv == records_view(records@),
                        rv.len() == records@.len(),
                        build_model(rv.take(idx as int)) == Some(bs0),
                        rv[idx as int] == (if true { RecordView::Input(ids@) } else { RecordView::Output(ids@) }),
                        gates@ == bs0.gates,
                        outstack@ == bs0.outs,
                        wires_unique(wires@),
                        gate_nets_present(gates@, wires@),
                        fanout_bounded(wires@, gates@.len() as int),
                        wires@.len() == bs0.wires.len(),
                        forall|i: int|
                            0 <= i < bs0.wires.len() ==> (#[trigger] wires@[i]).net
                                == bs0.wires[i].net,
                    decreases ids@.len() - t,
                {
                    let ghost wpre = wires@;
                    let id = ids[t];
                    if id != -1 {
                        if id < 0 || id > u32::MAX as i64 {
                            proof {
                                assert(rv.take(idx + 1).drop_last() =~= rv.take(idx as int));
                                assert(rv.take(idx + 1).last() == rv[idx as int]);
                                lemma_build_model_none(rv, idx + 1);
                            }
                            return Err(SimError::MalformedNetlist);
                        }
                        let n = id as u32;
                        proof {
                            lemma_mark_wf(wires@, n, WireType::PrimaryInput, gates@.len() as int);
                        }
                        wires.mark(n, WireType::PrimaryInput);
                        instack.push(n);
                        proof {
                            assert forall|i: int|
                                0 <= i < gates@.len() implies has_wire(
                                wires@,
                                (#[trigger] gates@[i]).in_a,
                            ) && has_wire(wires@, gates@[i].in_b) && has_wire(
                                wires@,
                                gates@[i].out,
                            ) by {
                                lemma_wire_index_stable(wpre, wires@, gates@[i].in_a);
                                lemma_wire_index_stable(wpre, wires@, gates@[i].in_b);
                                lemma_wire_index_stable(wpre, wires@, gates@[i].out);
                            }
                        }
                    }
                    t = t + 1;
                }
                proof {
                    assert(build_model(rv.take(idx + 1)) == Some(
                        (BuildState {
                            gates: gates@,
                            wires: wires@,
                            ins: instack@,
                            outs: outstack@,
                        }),
                    ));
                }
            },
            NetlistRecord::Output(ids) => {
                let mut t: usize = 0;
                while t < ids.len()
                    invariant
                        t <= ids@.len(),
                        port_step(bs0, ids@, false, 0) == port_step(
                            (BuildState {
                                gates: gates@,
                                wires: wires@,
                                ins: instack@,
                                outs: outstack@,
                            }),
                            ids@,
                            false,
                            t as int,
                        ),
                        idx < records@.len(),
                        rv == records_view(records@),
                        rv.len() == records@.len(),
                        build_model(rv.take(idx as int)) == Some(bs0),
                        rv[idx as int] == (if false { RecordView::Input(ids@) } else { RecordView::Output(ids@) }),
                        gates@ == bs0.gates,
                        instack@ == bs0.ins,
                        wires_unique(wires@),
                        gate_nets_present(gates@, wires@),
                        fanout_bounded(wires@, gates@.len() as int),
                        wires@.len() == bs0.wires.len(),
                        forall|i: int|
                            0 <= i < bs0.wires.len() ==> (#[trigger] wires@[i]).net
                                == bs0.wires[i].net,
                    decreases ids@.len() - t,
                {
                    let ghost wpre = wires@;
                    let id = ids[t];
                    if id != -1 {
                        if id < 0 || id > u32::MAX as i64 {
                            proof {
                                assert(rv.take(idx + 1).drop_last() =~= rv.take(idx as int));
                                assert(rv.take(idx + 1).last() == rv[idx as int]);
                                lemma_build_model_none(rv, idx + 1);
                            }
                            return Err(SimError::MalformedNetlist);
                        }
                        let n = id as u32;
                        proof {
                            lemma_mark_wf(wires@, n, WireType::PrimaryOutput, gates@.len() as int);
                        }
                        wires.mark(n, WireType::PrimaryOutput);
                        outstack.push(n);
                        proof {
                            assert forall|i: int|
                                0 <= i < gates@.len() implies has_wire(
                                wires@,
                                (#[trigger] gates@[i]).in_a,
                            ) && has_wire(wires@, gates@[i].in_b) && has_wire(
                                wires@,
                                gates@[i].out,
                            ) by {
                                lemma_wire_index_stable(wpre, wires@, gates@[i].in_a);
                                lemma_wire_index_stable(wpre, wires@, gates@[i].in_b);
                                lemma_wire_index_stable(wpre, wires@, gates@[i].out);
                            }
                        }
                    }
                    t = t + 1;
                }
                proof {
                    assert(build_model(rv.take(idx + 1)) == Some(
                        (BuildState {
                            gates: gates@,
                            wires: wires@,
                            ins: instack@,
                            outs: outstack@,
                        }),
                    ));
                }
            },
        }
        idx = idx + 1;
    }
    proof {
        assert(rv.take(records@.len() as int) =~= rv);
    }
    Ok((gates, wires, instack, outstack))
}

} // verus!
