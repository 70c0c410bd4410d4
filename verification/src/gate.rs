//! Gate types and their evaluation under the six-valued algebra.
//!
//! Each binary table is an ordered rule list: a controlling value forces the
//! output, an `X` input (with no controlling input) forces `X`, the neutral
//! value passes the other input through, and matching fault effects combine.
//! When no rule matches (some input is still `U`), evaluation leaves the
//! cached output unchanged; an output that is still `U` tells the engine
//! that evaluation is not yet possible there.

use vstd::prelude::*;

use crate::algebra::{invert, invert_spec, FiveLogic};

verus! {

/// The rules of a two-input AND gate. `None` means no rule matched and the
/// cached output is kept.
pub open spec fn and_table(a: FiveLogic, b: FiveLogic) -> Option<FiveLogic> {
    if a == FiveLogic::ZERO || b == FiveLogic::ZERO || (a == FiveLogic::D && b == FiveLogic::Dnot)
        || (a == FiveLogic::Dnot && b == FiveLogic::D) {
        Some(FiveLogic::ZERO)
    } else if a == FiveLogic::X || b == FiveLogic::X {
        Some(FiveLogic::X)
    } else if a == FiveLogic::ONE {
        Some(b)
    } else if b == FiveLogic::ONE {
        Some(a)
    } else if a == FiveLogic::D && b == FiveLogic::D {
        Some(FiveLogic::D)
    } else if a == FiveLogic::Dnot && b == FiveLogic::Dnot {
        Some(FiveLogic::Dnot)
    } else {
        None
    }
}

/// The rules of a two-input OR gate: the mirror image of `and_table` with
/// `ONE` as the controlling value.
pub open spec fn or_table(a: FiveLogic, b: FiveLogic) -> Option<FiveLogic> {
    if a == FiveLogic::ONE || b == FiveLogic::ONE || (a == FiveLogic::D && b == FiveLogic::Dnot)
        || (a == FiveLogic::Dnot && b == FiveLogic::D) {
        Some(FiveLogic::ONE)
    } else if a == FiveLogic::X || b == FiveLogic::X {
        Some(FiveLogic::X)
    } else if a == FiveLogic::ZERO {
        Some(b)
    } else if b == FiveLogic::ZERO {
        Some(a)
    } else if a == FiveLogic::D && b == FiveLogic::D {
        Some(FiveLogic::D)
    } else if a == FiveLogic::Dnot && b == FiveLogic::Dnot {
        Some(FiveLogic::Dnot)
    } else {
        None
    }
}

pub open spec fn opt_invert(t: Option<FiveLogic>) -> Option<FiveLogic> {
    match t {
        Some(v) => Some(invert_spec(v)),
        None => None,
    }
}

pub open spec fn nand_table(a: FiveLogic, b: FiveLogic) -> Option<FiveLogic> {
    opt_invert(and_table(a, b))
}

pub open spec fn nor_table(a: FiveLogic, b: FiveLogic) -> Option<FiveLogic> {
    opt_invert(or_table(a, b))
}

/// What an evaluation run leaves in the output slot: the matched rule's
/// value, or the previous output when no rule matched.
pub open spec fn eval_result(t: Option<FiveLogic>, prev: FiveLogic) -> FiveLogic {
    match t {
        Some(v) => v,
        None => prev,
    }
}

/// The six gate kinds, as one tag for uniform reasoning about the stack.
#[derive(Debug, PartialEq, Eq, Structural, Clone, Copy)]
pub enum GateKind {
    And,
    Or,
    Nand,
    Nor,
    Inv,
    Buf,
}

/// One table for every kind. The unary kinds read only `a` and always match.
pub open spec fn gate_table(kind: GateKind, a: FiveLogic, b: FiveLogic) -> Option<FiveLogic> {
    match kind {
        GateKind::And => and_table(a, b),
        GateKind::Or => or_table(a, b),
        GateKind::Nand => nand_table(a, b),
        GateKind::Nor => nor_table(a, b),
        GateKind::Inv => Some(invert_spec(a)),
        GateKind::Buf => Some(a),
    }
}

/// The truth tables follow the five-valued fault algebra: a controlling
/// input decides alone, opposite fault effects cancel, matching fault
/// effects pass, and the inverting kinds are the exact complements of their
/// plain counterparts under inversion.
pub proof fn lemma_gate_truth_table()
    ensures
        forall|v: FiveLogic| #[trigger] and_table(FiveLogic::ZERO, v) == Some::<FiveLogic>(
            FiveLogic::ZERO,
        ) && and_table(v, FiveLogic::ZERO) == Some::<FiveLogic>(FiveLogic::ZERO),
        forall|v: FiveLogic| #[trigger] or_table(FiveLogic::ONE, v) == Some::<FiveLogic>(
            FiveLogic::ONE,
        ) && or_table(v, FiveLogic::ONE) == Some::<FiveLogic>(FiveLogic::ONE),
        and_table(FiveLogic::D, FiveLogic::Dnot) == Some::<FiveLogic>(FiveLogic::ZERO),
        and_table(FiveLogic::Dnot, FiveLogic::D) == Some::<FiveLogic>(FiveLogic::ZERO),
        or_table(FiveLogic::D, FiveLogic::Dnot) == Some::<FiveLogic>(FiveLogic::ONE),
        or_table(FiveLogic::Dnot, FiveLogic::D) == Some::<FiveLogic>(FiveLogic::ONE),
        and_table(FiveLogic::D, FiveLogic::D) == Some::<FiveLogic>(FiveLogic::D),
        and_table(FiveLogic::Dnot, FiveLogic::Dnot) == Some::<FiveLogic>(FiveLogic::Dnot),
        forall|a: FiveLogic, b: FiveLogic| #[trigger] gate_table(GateKind::Nand, a, b)
            == opt_invert(gate_table(GateKind::And, a, b)),
        forall|a: FiveLogic, b: FiveLogic| #[trigger] gate_table(GateKind::Nor, a, b) == opt_invert(
            gate_table(GateKind::Or, a, b),
        ),
        forall|a: FiveLogic, b: FiveLogic| #[trigger] gate_table(GateKind::Inv, a, b) == opt_invert(
            gate_table(GateKind::Buf, a, b),
        ),
{
}

#[derive(Debug, PartialEq, Clone, Copy)]
pub struct ANDGate {
    pub input_a: FiveLogic,
    pub input_b: FiveLogic,
    pub output: FiveLogic,
    pub net_in_a: u32,
    pub net_in_b: u32,
    pub net_out: u32,
}

#[derive(Debug, PartialEq, Clone, Copy)]
pub struct ORGate {
    pub input_a: FiveLogic,
    pub input_b: FiveLogic,
    pub output: FiveLogic,
    pub net_in_a: u32,
    pub net_in_b: u32,
    pub net_out: u32,
}

#[derive(Debug, PartialEq, Clone, Copy)]
pub struct NANDGate {
    pub input_a: FiveLogic,
    pub input_b: FiveLogic,
    pub output: FiveLogic,
    pub net_in_a: u32,
    pub net_in_b: u32,
    pub net_out: u32,
}

#[derive(Debug, PartialEq, Clone, Copy)]
pub struct NORGate {
    pub input_a: FiveLogic,
    pub input_b: FiveLogic,
    pub output: FiveLogic,
    pub net_in_a: u32,
    pub net_in_b: u32,
    pub net_out: u32,
}

#[derive(Debug, PartialEq, Clone, Copy)]
pub struct NOTGate {
    pub input_a: FiveLogic,
    pub output: FiveLogic,
    pub net_in_a: u32,
    pub net_out: u32,
}

#[derive(Debug, PartialEq, Clone, Copy)]
pub struct BUFGate {
    pub input_a: FiveLogic,
    pub output: FiveLogic,
    pub net_in_a: u32,
    pub net_out: u32,
}

/// A gate evaluates in place: it recomputes its cached output from its
/// cached inputs, touching nothing else.
pub trait Gate {
    fn eval(&mut self);
}

impl Gate for ANDGate {
    fn eval(&mut self)
        ensures
            final(self).output == eval_result(
                and_table(old(self).input_a, old(self).input_b),
                old(self).output,
            ),
            final(self).input_a == old(self).input_a,
            final(self).input_b == old(self).input_b,
            final(self).net_in_a == old(self).net_in_a,
            final(self).net_in_b == old(self).net_in_b,
            final(self).net_out == old(self).net_out,
    {
        if self.input_a == FiveLogic::ZERO || self.input_b == FiveLogic::ZERO || self.input_a
            == FiveLogic::D && self.input_b == FiveLogic::Dnot || self.input_a == FiveLogic::Dnot
            && self.input_b == FiveLogic::D {
            self.output = FiveLogic::ZERO;
        } else if self.input_a == FiveLogic::X || self.input_b == FiveLogic::X {
            self.output = FiveLogic::X;
        } else if self.input_a == FiveLogic::ONE {
            self.output = self.input_b;
        } else if self.input_b == FiveLogic::ONE {
            self.output = self.input_a;
        } else if self.input_a == FiveLogic::D && self.input_b == FiveLogic::D {
            self.output = FiveLogic::D;
        } else if self.input_a == FiveLogic::Dnot && self.input_b == FiveLogic::Dnot {
            self.output = FiveLogic::Dnot;
        }
    }
}

impl Gate for NANDGate {
    fn eval(&mut self)
        ensures
            final(self).output == eval_result(
                nand_table(old(self).input_a, old(self).input_b),
                old(self).output,
            ),
            final(self).input_a == old(self).input_a,
            final(self).input_b == old(self).input_b,
            final(self).net_in_a == old(self).net_in_a,
            final(self).net_in_b == old(self).net_in_b,
            final(self).net_out == old(self).net_out,
    {
        if self.input_a == FiveLogic::ZERO || self.input_b == FiveLogic::ZERO || self.input_a
            == FiveLogic::D && self.input_b == FiveLogic::Dnot || self.input_a == FiveLogic::Dnot
            && self.input_b == FiveLogic::D {
            self.output = invert(&FiveLogic::ZERO);
        } else if self.input_a == FiveLogic::X || self.input_b == FiveLogic::X {
            self.output = invert(&FiveLogic::X);
        } else if self.input_a == FiveLogic::ONE {
            self.output = invert(&self.input_b);
        } else if self.input_b == FiveLogic::ONE {
            self.output = invert(&self.input_a);
        } else if self.input_a == FiveLogic::D && self.input_b == FiveLogic::D {
            self.output = invert(&FiveLogic::D);
        } else if self.input_a == FiveLogic::Dnot && self.input_b == FiveLogic::Dnot {
            self.output = invert(&FiveLogic::Dnot);
        }
    }
}

impl Gate for ORGate {
    fn eval(&mut self)
        ensures
            final(self).output == eval_result(
                or_table(old(self).input_a, old(self).input_b),
                old(self).output,
            ),
            final(self).input_a == old(self).input_a,
            final(self).input_b == old(self).input_b,
            final(self).net_in_a == old(self).net_in_a,
            final(self).net_in_b == old(self).net_in_b,
            final(self).net_out == old(self).net_out,
    {
        if self.input_a == FiveLogic::ONE || self.input_b == FiveLogic::ONE || self.input_a
            == FiveLogic::Dnot && self.input_b == FiveLogic::D || self.input_a == FiveLogic::D
            && self.input_b == FiveLogic::Dnot {
            self.output = FiveLogic::ONE;
        } else if self.input_a == FiveLogic::X || self.input_b == FiveLogic::X {
            self.output = FiveLogic::X;
        } else if self.input_a == FiveLogic::ZERO {
            self.output = self.input_b;
        } else if self.input_b == FiveLogic::ZERO {
            self.output = self.input_a;
        } else if self.input_a == FiveLogic::D && self.input_b == FiveLogic::D {
            self.output = FiveLogic::D;
        } else if self.input_a == FiveLogic::Dnot && self.input_b == FiveLogic::Dnot {
            self.output = FiveLogic::Dnot;
        }
    }
}

impl Gate for NORGate {
    fn eval(&mut self)
        ensures
            final(self).output == eval_result(
                nor_table(old(self).input_a, old(self).input_b),
                old(self).output,
            ),
            final(self).input_a == old(self).input_a,
            final(self).input_b == old(self).input_b,
            final(self).net_in_a == old(self).net_in_a,
            final(self).net_in_b == old(self).net_in_b,
            final(self).net_out == old(self).net_out,
    {
        if self.input_a == FiveLogic::ONE || self.input_b == FiveLogic::ONE || self.input_a
            == FiveLogic::D && self.input_b == FiveLogic::Dnot || self.input_a == FiveLogic::Dnot
            && self.input_b == FiveLogic::D {
            self.output = invert(&FiveLogic::ONE);
        } else if self.input_a == FiveLogic::X || self.input_b == FiveLogic::X {
            self.output = invert(&FiveLogic::X);
        } else if self.input_a == FiveLogic::ZERO {
            self.output = invert(&self.input_b);
        } else if self.input_b == FiveLogic::ZERO {
            self.output = invert(&self.input_a);
        } else if self.input_a == FiveLogic::D && self.input_b == FiveLogic::D {
            self.output = invert(&FiveLogic::D);
        } else if self.input_a == FiveLogic::Dnot && self.input_b == FiveLogic::Dnot {
            self.output = invert(&FiveLogic::Dnot);
        }
    }
}

impl Gate for NOTGate {
    fn eval(&mut self)
        ensures
            final(self).output == invert_spec(old(self).input_a),
            final(self).input_a == old(self).input_a,
            final(self).net_in_a == old(self).net_in_a,
            final(self).net_out == old(self).net_out,
    {
        self.output = invert(&self.input_a);
    }
}

impl Gate for BUFGate {
    fn eval(&mut self)
        ensures
            final(self).output == old(self).input_a,
            final(self).input_a == old(self).input_a,
            final(self).net_in_a == old(self).net_in_a,
            final(self).net_out == old(self).net_out,
    {
        self.output = self.input_a;
    }
}

#[derive(Clone, Copy)]
pub enum Gates {
    AND(ANDGate),
    OR(ORGate),
    NAND(NANDGate),
    NOR(NORGate),
    INV(NOTGate),
    BUF(BUFGate),
}

/// The flat view of a gate: its kind, the identifiers of its nets, and its
/// cached values. A unary gate reads one net, so both input slots of the
/// view name that net and carry that value.
pub struct GateView {
    pub kind: GateKind,
    pub in_a: u32,
    pub in_b: u32,
    pub out: u32,
    pub val_a: FiveLogic,
    pub val_b: FiveLogic,
    pub val_out: FiveLogic,
}

impl View for Gates {
    type V = GateView;

    open spec fn view(&self) -> GateView {
        match *self {
            Gates::AND(g) => GateView {
                kind: GateKind::And,
                in_a: g.net_in_a,
                in_b: g.net_in_b,
                out: g.net_out,
                val_a: g.input_a,
                val_b: g.input_b,
                val_out: g.output,
            },
            Gates::OR(g) => GateView {
                kind: GateKind::Or,
                in_a: g.net_in_a,
                in_b: g.net_in_b,
                out: g.net_out,
                val_a: g.input_a,
                val_b: g.input_b,
                val_out: g.output,
            },
            Gates::NAND(g) => GateView {
                kind: GateKind::Nand,
                in_a: g.net_in_a,
                in_b: g.net_in_b,
                out: g.net_out,
                val_a: g.input_a,
                val_b: g.input_b,
                val_out: g.output,
            },
            Gates::NOR(g) => GateView {
                kind: GateKind::Nor,
                in_a: g.net_in_a,
                in_b: g.net_in_b,
                out: g.net_out,
                val_a: g.input_a,
                val_b: g.input_b,
                val_out: g.output,
            },
            Gates::INV(g) => GateView {
                kind: GateKind::Inv,
                in_a: g.net_in_a,
                in_b: g.net_in_a,
                out: g.net_out,
                val_a: g.input_a,
                val_b: g.input_a,
                val_out: g.output,
            },
            Gates::BUF(g) => GateView {
                kind: GateKind::Buf,
                in_a: g.net_in_a,
                in_b: g.net_in_a,
                out: g.net_out,
                val_a: g.input_a,
                val_b: g.input_a,
                val_out: g.output,
            },
        }
    }
}

/// The ordered stack of every gate of the netlist; a wire's fanout list
/// holds indices into it.
pub struct GateStack {
    pub gatestack: Vec<Gates>,
}

impl View for GateStack {
    type V = Seq<GateView>;

    open spec fn view(&self) -> Seq<GateView> {
        self.gatestack@.map_values(|g: Gates| g@)
    }
}

} // verus!
