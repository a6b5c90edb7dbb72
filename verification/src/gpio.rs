//! What drivers and boards ask of a pin.

use vstd::prelude::*;

verus! {

/// The peripherals that a pin can be handed over to.
#[derive(Clone, Copy, Debug, PartialEq, Eq, Structural)]
pub enum PeripheralFunction {
    A,
    B,
    C,
    D,
    E,
    F,
    G,
    H,
}

/// An operation on a pin.
#[derive(Clone, Copy, Debug, PartialEq, Eq, Structural)]
pub enum PinAction {
    MakeInput,
    MakeOutput,
    SetHigh,
    SetLow,
    SelectPeripheral(PeripheralFunction),
}

} // verus!
