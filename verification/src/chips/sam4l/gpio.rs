//! The pins of the SAM4L.

use vstd::prelude::*;

verus! {

#[derive(Clone, Copy, Debug, PartialEq, Eq, Structural)]
pub enum Port {
    PA,
    PB,
    PC,
}

/// A pin, by its port and its number on the port.
#[derive(Clone, Copy, Debug, PartialEq, Eq, Structural)]
pub struct Pin {
    pub port: Port,
    pub number: usize,
}

} // verus!
