//! Gate-level simulator for combinational logic circuits under a six-valued
//! algebra (`ZERO`, `ONE`, `D`, `Dnot`, `X`, `U`) that supports unknown
//! signals and single stuck-at fault propagation.

pub mod algebra;
pub mod engine;
pub mod fault;
pub mod gate;
pub mod netlist;
pub mod wires;
