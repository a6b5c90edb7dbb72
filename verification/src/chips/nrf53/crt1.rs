//! What the nRF53 does out of reset, and its exception vectors.

use crate::registers::RegisterWrite;
use vstd::prelude::*;

verus! {

/// The number of interrupt vectors behind the exception vectors.
pub const NUM_IRQS: usize = 80;

/// Bits of the program status register that hold the active exception.
pub const IPSR_MASK: u32 = 0x1FF;

/// A step of the initialisation.
#[derive(Clone, Copy, Debug, PartialEq, Eq, Structural)]
pub enum InitStep {
    /// Write a register.
    Write(RegisterWrite),
    /// Copy the initial values of variables to memory.
    InitData,
    /// Fill the memory of all other variables with zeros.
    ZeroBss,
    /// Tell the core where the exception vectors are.
    SetVectorTable,
    /// Enable all interrupts.
    EnableInterrupts,
}

/// An entry of the exception vectors.
#[derive(Clone, Copy, Debug, PartialEq, Eq, Structural)]
pub enum Vector {
    StackPointer,
    ResetHandler,
    HardFaultHandler,
    SvcHandler,
    SystickHandler,
    UnhandledInterrupt,
    GenericIsr,
}

/// The writes that work around known defects of the chip.
pub open spec fn errata_writes() -> Seq<RegisterWrite> {
    seq![
        RegisterWrite { address: 0x50039530, value: 0xBEEF0044 },
        RegisterWrite { address: 0x5003254C, value: 0 },
        RegisterWrite { address: 0x50004728, value: 0x1 },
        RegisterWrite { address: 0x5000470C, value: 0x29 },
        RegisterWrite { address: 0x5000473C, value: 0x3 },
        RegisterWrite { address: 0x5000470C, value: 0x65 },
    ]
}

/// The steps to perform out of reset, in order: defects of the chip are worked around
/// before any variable can be used, and interrupts are enabled last of all.
pub fn init() -> (steps: Vec<InitStep>)
    ensures
        steps@ == errata_writes().map_values(|write: RegisterWrite| InitStep::Write(write))
            + seq![
            InitStep::InitData,
            InitStep::ZeroBss,
            InitStep::SetVectorTable,
            InitStep::EnableInterrupts,
        ],
{
    vec![
        // Errata 42: the reset value of HFCLKCTRL is invalid.
        InitStep::Write(RegisterWrite { address: 0x50039530, value: 0xBEEF0044 }),
        // Errata 46: LFRC draws more current.
        InitStep::Write(RegisterWrite { address: 0x5003254C, value: 0 }),
        // Errata 53: more current is drawn in normal voltage mode when idle.
        InitStep::Write(RegisterWrite { address: 0x50004728, value: 0x1 }),
        // Errata 64: the configuration of VREGMAIN is invalid while the CPU runs.
        InitStep::Write(RegisterWrite { address: 0x5000470C, value: 0x29 }),
        InitStep::Write(RegisterWrite { address: 0x5000473C, value: 0x3 }),
        // Errata 69: the configuration of VREGMAIN is lost when the system is off.
        InitStep::Write(RegisterWrite { address: 0x5000470C, value: 0x65 }),
        InitStep::InitData,
        InitStep::ZeroBss,
        // A bootloader may have left the vector table elsewhere.
        InitStep::SetVectorTable,
        InitStep::EnableInterrupts,
    ]
}

/// The entry of the vector table for an exception: the vectors of the core come first,
/// those of the peripherals after them.
pub open spec fn spec_vector(exception: int) -> Vector {
    if exception == 0 {
        Vector::StackPointer
    } else if exception == 1 {
        Vector::ResetHandler
    } else if exception == 3 {
        Vector::HardFaultHandler
    } else if exception == 11 {
        Vector::SvcHandler
    } else if exception == 15 {
        Vector::SystickHandler
    } else if exception < 16 {
        Vector::UnhandledInterrupt
    } else {
        Vector::GenericIsr
    }
}

/// The vectors of the core's own exceptions.
pub fn base_vectors() -> (vectors: Vec<Vector>)
    ensures
        vectors@ == Seq::new(16, |exception: int| spec_vector(exception)),
{
    vec![
        // Stack pointer
        Vector::StackPointer,
        // Reset
        Vector::ResetHandler,
        // NMI
        Vector::UnhandledInterrupt,
        // Hard fault
        Vector::HardFaultHandler,
        // Memory management fault
        Vector::UnhandledInterrupt,
        // Bus fault
        Vector::UnhandledInterrupt,
        // Usage fault
        Vector::UnhandledInterrupt,
        // Reserved
        Vector::UnhandledInterrupt,
        Vector::UnhandledInterrupt,
        Vector::UnhandledInterrupt,
        Vector::UnhandledInterrupt,
        // SVCall
        Vector::SvcHandler,
        // Debug
        Vector::UnhandledInterrupt,
        // Reserved
        Vector::UnhandledInterrupt,
        // PendSV
        Vector::UnhandledInterrupt,
        // SysTick
        Vector::SystickHandler,
    ]
}

/// The vectors of the peripherals' interrupts.
pub fn irqs() -> (vectors: Vec<Vector>)
    ensures
        vectors@ == Seq::new(NUM_IRQS as nat, |irq: int| spec_vector(16 + irq)),
{
    let mut vectors: Vec<Vector> = Vec::new();
    let mut irq: usize = 0;
    while irq < NUM_IRQS
        invariant
            irq <= NUM_IRQS,
            vectors@ == Seq::new(irq as nat, |irq: int| spec_vector(16 + irq)),
        decreases NUM_IRQS - irq,
    {
        vectors.push(Vector::GenericIsr);
        irq = irq + 1;
    }
    vectors
}

/// The exception that is active, from the value of the program status register.
pub fn active_interrupt(ipsr: u32) -> (exception: u32)
    ensures
        exception == ipsr % 512,
{
    assert(ipsr & 0x1FFu32 == ipsr % 512u32) by (bit_vector);
    ipsr & IPSR_MASK
}

/// Each of the core's own handlers is that of one exception: reset, hard fault, supervisor call
/// and system tick. All interrupts of peripherals go to one handler, and whatever is left is
/// not expected. The stack pointer stands before all of them.
pub proof fn law_vectors(exception: int)
    requires
        0 <= exception < 16 + NUM_IRQS,
    ensures
        NUM_IRQS == 80,
        spec_vector(exception) == Vector::StackPointer <==> exception == 0,
        spec_vector(exception) == Vector::ResetHandler <==> exception == 1,
        spec_vector(exception) == Vector::HardFaultHandler <==> exception == 3,
        spec_vector(exception) == Vector::SvcHandler <==> exception == 11,
        spec_vector(exception) == Vector::SystickHandler <==> exception == 15,
        spec_vector(exception) == Vector::GenericIsr <==> exception >= 16,
{
}

/// The registers that are written out of reset, and the values that they end up with: the last
/// write to a register stands.
pub proof fn law_errata_writes(i: int)
    requires
        0 <= i < errata_writes().len(),
        forall|j: int|
            i < j < errata_writes().len() ==> #[trigger] errata_writes()[j].address
                != errata_writes()[i].address,
    ensures
        ({
            let write = errata_writes()[i];
            ||| write.address == 0x50039530 && write.value == 0xBEEF0044
            ||| write.address == 0x5003254C && write.value == 0
            ||| write.address == 0x50004728 && write.value == 0x1
            ||| write.address == 0x5000473C && write.value == 0x3
            ||| write.address == 0x5000470C && write.value == 0x65
        }),
        errata_writes().contains(RegisterWrite { address: 0x50039530, value: 0xBEEF0044 }),
        errata_writes().contains(RegisterWrite { address: 0x5003254C, value: 0 }),
        errata_writes().contains(RegisterWrite { address: 0x50004728, value: 0x1 }),
        errata_writes().contains(RegisterWrite { address: 0x5000473C, value: 0x3 }),
        errata_writes().contains(RegisterWrite { address: 0x5000470C, value: 0x29 }),
        errata_writes().contains(RegisterWrite { address: 0x5000470C, value: 0x65 }),
        errata_writes().len() == 6,
{
    let writes = errata_writes();
    assert(writes[0].value == 0xBEEF0044 && writes[1].value == 0 && writes[2].value == 0x1
        && writes[3].value == 0x29 && writes[4].value == 0x3 && writes[5].value == 0x65);
    assert(writes[0].address == 0x50039530 && writes[1].address == 0x5003254C && writes[2].address
        == 0x50004728 && writes[3].address == 0x5000470C && writes[4].address == 0x5000473C
        && writes[5].address == 0x5000470C);
}

} // verus!
