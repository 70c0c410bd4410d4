//! The value domain of the simulator and its inversion operator.
//!
//! `D` stands for "good circuit drives 1, faulty circuit drives 0" and
//! `Dnot` for the opposite pairing. `X` is a genuinely ambiguous signal,
//! while `U` is the engine's "not yet computed" sentinel and is distinct
//! from `X`.

use vstd::prelude::*;

verus! {

#[derive(Debug, PartialEq, Eq, Structural, Clone, Copy)]
pub enum FiveLogic {
    ZERO,
    ONE,
    D,
    Dnot,
    X,
    U,
}

/// What `invert` returns: an involution on `{ZERO, ONE}` and on
/// `{D, Dnot}`, the identity on `X` and on `U`.
pub open spec fn invert_spec(v: FiveLogic) -> FiveLogic {
    match v {
        FiveLogic::ONE => FiveLogic::ZERO,
        FiveLogic::ZERO => FiveLogic::ONE,
        FiveLogic::D => FiveLogic::Dnot,
        FiveLogic::Dnot => FiveLogic::D,
        FiveLogic::X => FiveLogic::X,
        FiveLogic::U => FiveLogic::U,
    }
}

/// Logical inversion of a single value.
pub fn invert(value: &FiveLogic) -> (r: FiveLogic)
    ensures
        r == invert_spec(*value),
{
    if *value == FiveLogic::ONE {
        FiveLogic::ZERO
    } else if *value == FiveLogic::ZERO {
        FiveLogic::ONE
    } else if *value == FiveLogic::D {
        FiveLogic::Dnot
    } else if *value == FiveLogic::Dnot {
        FiveLogic::D
    } else if *value == FiveLogic::X {
        FiveLogic::X
    } else {
        FiveLogic::U
    }
}

/// Inversion is an involution on `{ZERO, ONE, D, Dnot}` and leaves `X`
/// unchanged.
pub proof fn lemma_invert_involution()
    ensures
        forall|v: FiveLogic| v != FiveLogic::X && v != FiveLogic::U ==> #[trigger] invert_spec(
            invert_spec(v),
        ) == v,
        invert_spec(FiveLogic::X) == FiveLogic::X,
{
}

} // verus!
