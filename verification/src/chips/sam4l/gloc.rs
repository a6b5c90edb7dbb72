//! The glue logic controller (GLOC) of the SAM4L: two lookup tables, each from four
//! inputs to one output.

use crate::registers::{
    field_fits, field_modify, field_read, field_value, law_field_keeps_others,
    law_field_reads_back, spec_field_modify, spec_field_read, spec_field_value, RegisterWrite,
};
use vstd::prelude::*;

verus! {

/// The base address of the controller.
pub const GLOC_BASE_ADDR: u32 = 0x40060000;

/// The number of bytes from the registers of one table to those of the next.
pub const GLOC_LUT_SIZE: u32 = 0x8;

/// The control register of a table, by its offset from the table's registers.
pub const CR: u32 = 0x0;

/// The truth register of a table, by its offset from the table's registers.
pub const TRUTH: u32 = 0x4;

// Fields, by their offset and mask.
pub const FILTEN: u32 = 31;

pub const FILTEN_MASK: u32 = 1;

pub const AEN: u32 = 0;

pub const AEN_MASK: u32 = 0xF;

pub const TRUTH_TRUTH: u32 = 0;

pub const TRUTH_MASK: u32 = 0xFFFF;

// Inputs of the first table.
pub const IN0: u8 = 0b0001;

pub const IN1: u8 = 0b0010;

pub const IN2: u8 = 0b0100;

pub const IN3: u8 = 0b1000;

// Inputs of the second table.
pub const IN4: u8 = 0b0001;

pub const IN5: u8 = 0b0010;

pub const IN6: u8 = 0b0100;

pub const IN7: u8 = 0b1000;

/// A lookup table of the controller.
#[derive(Clone, Copy, Debug, PartialEq, Eq, Structural)]
pub enum Lut {
    Lut0,
    Lut1,
}

impl Lut {
    pub open spec fn spec_index_of(self) -> int {
        match self {
            Lut::Lut0 => 0,
            Lut::Lut1 => 1,
        }
    }
}

/// The addresses of the registers of a lookup table.
#[derive(Clone, Copy, Debug, PartialEq, Eq, Structural)]
pub struct GlocRegisters {
    pub cr: u32,
    pub truth: u32,
}

/// The addresses of the registers of a lookup table.
pub open spec fn registers_of(lut: Lut) -> GlocRegisters {
    let base = GLOC_BASE_ADDR + lut.spec_index_of() * GLOC_LUT_SIZE;
    GlocRegisters { cr: (base + CR) as u32, truth: (base + TRUTH) as u32 }
}

/// An operation on the controller.
#[derive(Clone, Copy, Debug, PartialEq, Eq, Structural)]
pub enum GlocAction {
    /// Enable the clock of the controller.
    EnableClock,
    /// Disable the clock of the controller.
    DisableClock,
    Write(RegisterWrite),
}

/// The truth register for a table: bit `i` is the output for the inputs that make up `i`.
pub open spec fn truth_value(config: u16) -> u32 {
    spec_field_value(TRUTH_TRUTH, TRUTH_MASK, config as u32)
}

/// The control register with more inputs enabled.
pub open spec fn with_inputs(cr: u32, inputs: u8) -> u32 {
    spec_field_modify(cr, AEN, AEN_MASK, spec_field_read(cr, AEN, AEN_MASK) | inputs as u32)
}

/// The control register with inputs disabled.
pub open spec fn without_inputs(cr: u32, inputs: u8) -> u32 {
    spec_field_modify(cr, AEN, AEN_MASK, spec_field_read(cr, AEN, AEN_MASK) & !(inputs as u32))
}

/// The control register with no input enabled.
pub open spec fn without_all_inputs(cr: u32) -> u32 {
    spec_field_modify(cr, AEN, AEN_MASK, 0)
}

/// The control register with the output filtered or not.
pub open spec fn with_filter(cr: u32, filter: bool) -> u32 {
    spec_field_modify(
        cr,
        FILTEN,
        FILTEN_MASK,
        if filter {
            1
        } else {
            0
        },
    )
}

/// The inputs that a control register enables.
pub open spec fn inputs_of(cr: u32) -> u32 {
    spec_field_read(cr, AEN, AEN_MASK)
}

/// Whether a control register has the output filtered.
pub open spec fn filter_of(cr: u32) -> bool {
    spec_field_read(cr, FILTEN, FILTEN_MASK) == 1
}

/// The output of a table for the inputs that make up `inputs`.
pub open spec fn lut_output(config: u16, inputs: u16) -> bool {
    (config >> inputs) & 1 == 1
}

/// Whether an odd number of the four inputs is set.
pub open spec fn xor_of_inputs(inputs: u16) -> bool {
    (inputs ^ (inputs >> 1) ^ (inputs >> 2) ^ (inputs >> 3)) & 1 == 1
}

/// The writes that disable a table whose control register reads as `cr`.
pub open spec fn disable_writes(lut: Lut, cr: u32) -> Seq<RegisterWrite> {
    seq![
        RegisterWrite { address: registers_of(lut).truth, value: truth_value(0) },
        RegisterWrite { address: registers_of(lut).cr, value: without_all_inputs(cr) },
    ]
}

/// The registers of one lookup table.
pub struct GlocLut {
    pub registers: GlocRegisters,
}

impl GlocLut {
    pub fn new(lut: Lut) -> (table: GlocLut)
        ensures
            table.registers == registers_of(lut),
    {
        let index: u32 = match lut {
            Lut::Lut0 => 0,
            Lut::Lut1 => 1,
        };
        let base: u32 = GLOC_BASE_ADDR + index * GLOC_LUT_SIZE;
        GlocLut { registers: GlocRegisters { cr: base + CR, truth: base + TRUTH } }
    }
}

/// The controller.
pub struct Gloc {
    luts: [GlocLut; 2],
}

impl Gloc {
    /// The tables are at their addresses.
    pub closed spec fn wf(self) -> bool {
        &&& self.luts@[0].registers == registers_of(Lut::Lut0)
        &&& self.luts@[1].registers == registers_of(Lut::Lut1)
    }

    pub fn new() -> (gloc: Gloc)
        ensures
            gloc.wf(),
    {
        Gloc { luts: [GlocLut::new(Lut::Lut0), GlocLut::new(Lut::Lut1)] }
    }

    /// What enables the controller.
    pub fn enable(&self) -> (action: GlocAction)
        ensures
            action == GlocAction::EnableClock,
    {
        GlocAction::EnableClock
    }

    /// What disables both tables, whose control registers read as `cr0` and `cr1`, and
    /// after them the controller.
    pub fn disable(&self, cr0: u32, cr1: u32) -> (actions: Vec<GlocAction>)
        requires
            self.wf(),
        ensures
            actions@ == (disable_writes(Lut::Lut0, cr0) + disable_writes(
                Lut::Lut1,
                cr1,
            )).map_values(|write: RegisterWrite| GlocAction::Write(write)).push(
                GlocAction::DisableClock,
            ),
    {
        let first = self.disable_lut(Lut::Lut0, cr0);
        let second = self.disable_lut(Lut::Lut1, cr1);
        vec![
            GlocAction::Write(first[0]),
            GlocAction::Write(first[1]),
            GlocAction::Write(second[0]),
            GlocAction::Write(second[1]),
            GlocAction::DisableClock,
        ]
    }

    /// The addresses of the registers of a table.
    pub fn lut_registers(&self, lut: Lut) -> (registers: GlocRegisters)
        requires
            self.wf(),
        ensures
            registers == registers_of(lut),
    {
        match lut {
            Lut::Lut0 => self.luts[0].registers,
            Lut::Lut1 => self.luts[1].registers,
        }
    }

    /// The write that sets the outputs of a table.
    pub fn configure_lut(&self, lut: Lut, config: u16) -> (write: RegisterWrite)
        requires
            self.wf(),
        ensures
            write == (RegisterWrite {
                address: registers_of(lut).truth,
                value: truth_value(config),
            }),
    {
        RegisterWrite {
            address: self.lut_registers(lut).truth,
            value: field_value(TRUTH_TRUTH, TRUTH_MASK, config as u32),
        }
    }

    /// The write that enables inputs of a table whose control register reads as `cr`.
    pub fn enable_lut_inputs(&self, lut: Lut, inputs: u8, cr: u32) -> (write: RegisterWrite)
        requires
            self.wf(),
        ensures
            write == (RegisterWrite {
                address: registers_of(lut).cr,
                value: with_inputs(cr, inputs),
            }),
    {
        let aen: u32 = field_read(cr, AEN, AEN_MASK) | inputs as u32;
        RegisterWrite {
            address: self.lut_registers(lut).cr,
            value: field_modify(cr, AEN, AEN_MASK, aen),
        }
    }

    /// The write that disables inputs of a table whose control register reads as `cr`.
    pub fn disable_lut_inputs(&self, lut: Lut, inputs: u8, cr: u32) -> (write: RegisterWrite)
        requires
            self.wf(),
        ensures
            write == (RegisterWrite {
                address: registers_of(lut).cr,
                value: without_inputs(cr, inputs),
            }),
    {
        let aen: u32 = field_read(cr, AEN, AEN_MASK) & !(inputs as u32);
        RegisterWrite {
            address: self.lut_registers(lut).cr,
            value: field_modify(cr, AEN, AEN_MASK, aen),
        }
    }

    /// The writes that disable a table whose control register reads as `cr`.
    pub fn disable_lut(&self, lut: Lut, cr: u32) -> (writes: Vec<RegisterWrite>)
        requires
            self.wf(),
        ensures
            writes@ == disable_writes(lut, cr),
    {
        let registers = self.lut_registers(lut);
        vec![
            RegisterWrite {
                address: registers.truth,
                value: field_value(TRUTH_TRUTH, TRUTH_MASK, 0),
            },
            RegisterWrite { address: registers.cr, value: field_modify(cr, AEN, AEN_MASK, 0) },
        ]
    }

    /// The write that has the output of a table filtered, whose control register reads
    /// as `cr`.
    pub fn enable_lut_filter(&self, lut: Lut, cr: u32) -> (write: RegisterWrite)
        requires
            self.wf(),
        ensures
            write == (RegisterWrite {
                address: registers_of(lut).cr,
                value: with_filter(cr, true),
            }),
    {
        RegisterWrite {
            address: self.lut_registers(lut).cr,
            value: field_modify(cr, FILTEN, FILTEN_MASK, 1),
        }
    }

    /// The write that has the output of a table not filtered, whose control register
    /// reads as `cr`.
    pub fn disable_lut_filter(&self, lut: Lut, cr: u32) -> (write: RegisterWrite)
        requires
            self.wf(),
        ensures
            write == (RegisterWrite {
                address: registers_of(lut).cr,
                value: with_filter(cr, false),
            }),
    {
        RegisterWrite {
            address: self.lut_registers(lut).cr,
            value: field_modify(cr, FILTEN, FILTEN_MASK, 0),
        }
    }
}

proof fn lemma_fields()
    ensures
        field_fits(AEN, AEN_MASK),
        field_fits(FILTEN, FILTEN_MASK),
        (AEN_MASK << AEN) & (FILTEN_MASK << FILTEN) == 0,
        (FILTEN_MASK << FILTEN) & (AEN_MASK << AEN) == 0,
{
    assert((0xFu32 << 0u32) >> 0u32 == 0xFu32 && (1u32 << 31u32) >> 31u32 == 1u32 && (0xFu32
        << 0u32) & (1u32 << 31u32) == 0u32 && (1u32 << 31u32) & (0xFu32 << 0u32) == 0u32)
        by (bit_vector);
}

/// Enabling inputs adds them to those that are enabled, disabling inputs takes them
/// away, and neither bears on the filter.
pub proof fn law_inputs(cr: u32, inputs: u8)
    ensures
        inputs_of(with_inputs(cr, inputs)) == inputs_of(cr) | (inputs as u32 & AEN_MASK),
        inputs_of(without_inputs(cr, inputs)) == inputs_of(cr) & !(inputs as u32),
        filter_of(with_inputs(cr, inputs)) == filter_of(cr),
        filter_of(without_inputs(cr, inputs)) == filter_of(cr),
{
    lemma_fields();
    let on: u32 = inputs as u32;
    let aen: u32 = inputs_of(cr);
    law_field_reads_back(cr, AEN, AEN_MASK, aen | on);
    law_field_reads_back(cr, AEN, AEN_MASK, aen & !on);
    law_field_keeps_others(cr, AEN, AEN_MASK, aen | on, FILTEN, FILTEN_MASK);
    law_field_keeps_others(cr, AEN, AEN_MASK, aen & !on, FILTEN, FILTEN_MASK);
    assert(aen == (cr >> 0u32) & 0xFu32);
    assert((aen | on) & 0xFu32 == aen | (on & 0xFu32) && (aen & !on) & 0xFu32 == aen & !on)
        by (bit_vector)
        requires
            aen == (cr >> 0u32) & 0xFu32,
    ;
}

/// Inputs that are enabled and then disabled are disabled, whether or not they were
/// before; the other inputs are as they were.
pub proof fn law_enable_then_disable_inputs(cr: u32, inputs: u8)
    ensures
        inputs_of(without_inputs(with_inputs(cr, inputs), inputs)) == inputs_of(
            without_inputs(cr, inputs),
        ),
        inputs_of(without_inputs(with_inputs(cr, inputs), inputs)) & inputs as u32 == 0,
{
    law_inputs(cr, inputs);
    law_inputs(with_inputs(cr, inputs), inputs);
    let on: u32 = inputs as u32;
    let aen: u32 = inputs_of(cr);
    assert((aen | (on & 0xFu32)) & !on == aen & !on && (aen & !on) & on == 0u32) by (bit_vector);
}

/// The filter is as it was last set, and setting it bears on no input.
pub proof fn law_filter(cr: u32, filter: bool)
    ensures
        filter_of(with_filter(cr, filter)) == filter,
        inputs_of(with_filter(cr, filter)) == inputs_of(cr),
{
    lemma_fields();
    let on: u32 = if filter {
        1
    } else {
        0
    };
    law_field_reads_back(cr, FILTEN, FILTEN_MASK, on);
    law_field_keeps_others(cr, FILTEN, FILTEN_MASK, on, AEN, AEN_MASK);
    assert(1u32 & 1u32 == 1u32 && 0u32 & 1u32 == 0u32) by (bit_vector);
}

/// A table that has been disabled has no input and a zero output, and its filter is as
/// it was.
pub proof fn law_disabled(cr: u32)
    ensures
        inputs_of(without_all_inputs(cr)) == 0,
        filter_of(without_all_inputs(cr)) == filter_of(cr),
        truth_value(0) == 0,
{
    lemma_fields();
    law_field_reads_back(cr, AEN, AEN_MASK, 0);
    law_field_keeps_others(cr, AEN, AEN_MASK, 0, FILTEN, FILTEN_MASK);
    assert(0u32 & 0xFu32 == 0u32 && (0u32 & 0xFFFFu32) << 0u32 == 0u32) by (bit_vector);
}

/// All outputs of a table fit in its truth register.
pub proof fn law_truth_value(config: u16)
    ensures
        truth_value(config) == config,
{
    let value: u32 = config as u32;
    assert((value & 0xFFFFu32) << 0u32 == value) by (bit_vector)
        requires
            value < 0x10000,
    ;
}

/// The inputs are the lowest four bits of a control register, and the filter is the highest:
/// enabling inputs sets their bits, disabling inputs clears theirs, and neither these nor the
/// filter changes any other bit.
pub proof fn law_control_in_numbers(cr: u32, inputs: u8)
    ensures
        inputs_of(cr) == cr % 16,
        filter_of(cr) <==> cr >= 0x8000_0000,
        with_inputs(cr, inputs) == cr | (inputs as u32 & 0xF),
        without_inputs(cr, inputs) == cr & !(inputs as u32 & 0xF),
        without_all_inputs(cr) == cr & 0xFFFF_FFF0,
        with_filter(cr, true) == cr | 0x8000_0000,
        with_filter(cr, false) == cr & 0x7FFF_FFFF,
{
    let on: u32 = inputs as u32;
    assert((cr >> 0u32) & 0xFu32 == cr % 16u32 && (((cr >> 31u32) & 1u32 == 1u32) <==> cr
        >= 0x8000_0000u32) && (cr & !(0xFu32 << 0u32)) | ((0u32 & 0xFu32) << 0u32) == cr
        & 0xFFFF_FFF0u32 && (cr & !(1u32 << 31u32)) | ((1u32 & 1u32) << 31u32) == cr
        | 0x8000_0000u32 && (cr & !(1u32 << 31u32)) | ((0u32 & 1u32) << 31u32) == cr
        & 0x7FFF_FFFFu32) by (bit_vector);
    assert((cr & !(0xFu32 << 0u32)) | (((((cr >> 0u32) & 0xFu32) | on) & 0xFu32) << 0u32) == cr | (
    on & 0xFu32) && (cr & !(0xFu32 << 0u32)) | (((((cr >> 0u32) & 0xFu32) & !on) & 0xFu32) << 0u32)
        == cr & !(on & 0xFu32)) by (bit_vector);
}

/// The tables' registers follow each other from the base address of the controller, a control
/// register and a truth register for each.
pub proof fn law_registers_in_numbers(lut: Lut)
    ensures
        registers_of(Lut::Lut0).cr == 0x4006_0000,
        registers_of(Lut::Lut1).cr == registers_of(Lut::Lut0).truth + 4,
        registers_of(lut).truth == registers_of(lut).cr + 4,
{
}

/// A table is disabled by two writes: every output becomes zero before the inputs are
/// disabled.
pub proof fn law_disable_writes(lut: Lut, cr: u32)
    ensures
        disable_writes(lut, cr).len() == 2,
        disable_writes(lut, cr)[0].address == registers_of(lut).truth,
        disable_writes(lut, cr)[0].value == 0,
        disable_writes(lut, cr)[1].address == registers_of(lut).cr,
        disable_writes(lut, cr)[1].value == cr & 0xFFFF_FFF0,
{
    law_disabled(cr);
    law_control_in_numbers(cr, 0);
}

/// The truth register holds the output for every combination of the inputs, at the bit that
/// they number.
pub proof fn law_truth_holds_outputs(config: u16, inputs: u16)
    requires
        inputs < 16,
    ensures
        lut_output(config, inputs) <==> truth_value(config) & (1u32 << inputs as u32) != 0,
{
    let value: u32 = config as u32;
    let at: u32 = inputs as u32;
    law_truth_value(config);
    assert((config >> inputs) & 1u16 == 1u16 <==> value & (1u32 << at) != 0u32) by (bit_vector)
        requires
            inputs < 16,
            value == config as u32,
            at == inputs as u32,
    ;
}

} // verus!
