//! The stuck-at fault model.
//!
//! A fault table maps a net identifier to a stuck-at annotation; absence of
//! an entry means "no fault on this net". The table is built from parsed
//! `(net, kind)` records, where kind `0` encodes stuck-at-0 and `1`
//! stuck-at-1; any other kind is ignored. At most one fault should be active
//! per run for the single-fault model to be meaningful; the table itself
//! does not enforce that.
//!
//! Fault injection composes the fault-free (good-circuit) value on the
//! faulty net with the value the fault forces: a stuck-at-0 net whose good
//! value is `ONE` carries `D` (good 1 / faulty 0), a stuck-at-1 net whose
//! good value is `ZERO` carries `Dnot`, and a net whose good value already
//! equals the forced value keeps it.

use vstd::prelude::*;

use crate::algebra::FiveLogic;

verus! {

/// Table code for a stuck-at-0 annotation.
pub const SA0: u8 = 0x01;

/// Table code for a stuck-at-1 annotation.
pub const SA1: u8 = 0x02;

/// One parsed fault-list record: a net identifier and a fault kind, `0` for
/// stuck-at-0 and `1` for stuck-at-1.
pub struct FaultRecord {
    pub net: u32,
    pub kind: u8,
}

/// Per-net stuck-at annotations, keyed by net identifier; the code `0`
/// means "no fault".
pub struct FaultTable {
    pub codes: Vec<u8>,
}

impl View for FaultTable {
    type V = Seq<u8>;

    open spec fn view(&self) -> Seq<u8> {
        self.codes@
    }
}

/// The annotation of net `n`: `SA0`, `SA1`, or `0` for no fault.
pub open spec fn fault_code(ft: Seq<u8>, n: u32) -> u8 {
    if n < ft.len() && (ft[n as int] == SA0 || ft[n as int] == SA1) {
        ft[n as int]
    } else {
        0
    }
}

/// The effective level of a stuck-at-0 net whose fault-free level is `v`.
pub open spec fn sa0_effect(v: FiveLogic) -> FiveLogic {
    match v {
        FiveLogic::ZERO => FiveLogic::ZERO,
        FiveLogic::ONE => FiveLogic::D,
        FiveLogic::D => FiveLogic::D,
        FiveLogic::Dnot => FiveLogic::ZERO,
        FiveLogic::X => FiveLogic::X,
        FiveLogic::U => FiveLogic::U,
    }
}

/// The effective level of a stuck-at-1 net whose fault-free level is `v`.
pub open spec fn sa1_effect(v: FiveLogic) -> FiveLogic {
    match v {
        FiveLogic::ZERO => FiveLogic::Dnot,
        FiveLogic::ONE => FiveLogic::ONE,
        FiveLogic::D => FiveLogic::ONE,
        FiveLogic::Dnot => FiveLogic::Dnot,
        FiveLogic::X => FiveLogic::X,
        FiveLogic::U => FiveLogic::U,
    }
}

/// The level net `n` carries when driven to the fault-free level `v` with
/// fault simulation switched on or off.
pub open spec fn drive_spec(ft: Seq<u8>, enabled: bool, n: u32, v: FiveLogic) -> FiveLogic {
    if enabled && fault_code(ft, n) == SA0 {
        sa0_effect(v)
    } else if enabled && fault_code(ft, n) == SA1 {
        sa1_effect(v)
    } else {
        v
    }
}

/// The table after one record has been applied: kind `0` writes `SA0`,
/// kind `1` writes `SA1`, any other kind changes nothing.
pub open spec fn apply_fault_record(ft: Seq<u8>, net: u32, kind: u8) -> Seq<u8> {
    if kind == 0 {
        ft.update(net as int, SA0)
    } else if kind == 1 {
        ft.update(net as int, SA1)
    } else {
        ft
    }
}

/// The table after a prefix of the records has been applied, starting from
/// the all-zero table of size `count`.
pub open spec fn fault_table_model(records: Seq<FaultRecord>, count: nat) -> Seq<u8>
    decreases records.len(),
{
    if records.len() == 0 {
        Seq::new(count, |i: int| 0u8)
    } else {
        let prev = fault_table_model(records.drop_last(), count);
        apply_fault_record(prev, records.last().net, records.last().kind)
    }
}

/// The level net `n` carries when driven to the fault-free level `v`: the
/// net's stuck-at annotation, when fault simulation is enabled, overrides
/// the value at the point where the net is driven.
pub fn drive(ft: &FaultTable, enabled: bool, n: u32, v: FiveLogic) -> (r: FiveLogic)
    ensures
        r == drive_spec(ft@, enabled, n, v),
{
    if !enabled {
        return v;
    }
    if (n as usize) < ft.codes.len() {
        let c = ft.codes[n as usize];
        if c == SA0 {
            if v == FiveLogic::ZERO {
                FiveLogic::ZERO
            } else if v == FiveLogic::ONE {
                FiveLogic::D
            } else if v == FiveLogic::D {
                FiveLogic::D
            } else if v == FiveLogic::Dnot {
                FiveLogic::ZERO
            } else if v == FiveLogic::X {
                FiveLogic::X
            } else {
                FiveLogic::U
            }
        } else if c == SA1 {
            if v == FiveLogic::ZERO {
                FiveLogic::Dnot
            } else if v == FiveLogic::ONE {
                FiveLogic::ONE
            } else if v == FiveLogic::D {
                FiveLogic::ONE
            } else if v == FiveLogic::Dnot {
                FiveLogic::Dnot
            } else if v == FiveLogic::X {
                FiveLogic::X
            } else {
                FiveLogic::U
            }
        } else {
            v
        }
    } else {
        v
    }
}

/// Builds the per-net fault table from parsed fault records, sized against
/// the net count.
pub fn build_fault_table(records: &Vec<FaultRecord>, net_count: usize) -> (r: FaultTable)
    requires
        forall|k: int| 0 <= k < records@.len() ==> (#[trigger] records@[k].net as int) < net_count,
    ensures
        r@ == fault_table_model(records@, net_count as nat),
        r@.len() == net_count,
{
    let mut codes: Vec<u8> = Vec::new();
    let mut i: usize = 0;
    while i < net_count
        invariant
            i <= net_count,
            codes@.len() == i,
            forall|j: int| 0 <= j < i ==> codes@[j] == 0u8,
        decreases net_count - i,
    {
        codes.push(0u8);
        i = i + 1;
    }
    assert(codes@ =~= Seq::new(net_count as nat, |j: int| 0u8));
    let mut table = FaultTable { codes };
    let mut k: usize = 0;
    while k < records.len()
        invariant
            k <= records@.len(),
            forall|j: int| 0 <= j < records@.len() ==> (#[trigger] records@[j].net as int)
                < net_count,
            table@.len() == net_count,
            table@ == fault_table_model(records@.take(k as int), net_count as nat),
        decreases records@.len() - k,
    {
        let rec_net = records[k].net;
        let rec_kind = records[k].kind;
        if rec_kind == 0 {
            table.codes[rec_net as usize] = SA0;
        } else if rec_kind == 1 {
            table.codes[rec_net as usize] = SA1;
        }
        proof {
            assert(records@.take(k + 1).drop_last() =~= records@.take(k as int));
            assert(records@.take(k + 1).last() == records@[k as int]);
        }
        k = k + 1;
    }
    proof {
        assert(records@.take(records@.len() as int) =~= records@);
    }
    table
}

} // verus!
