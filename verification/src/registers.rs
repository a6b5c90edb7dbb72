//! Memory-mapped 32-bit registers and their bit fields.
//!
//! A field is given by its offset and by its mask, which has as many low bits set as
//! the field is wide.

use vstd::prelude::*;

verus! {

/// A value to write to the register at an address.
#[derive(Clone, Copy, Debug, PartialEq, Eq, Structural)]
pub struct RegisterWrite {
    pub address: u32,
    pub value: u32,
}

/// The register value that holds `value` in a field and zero elsewhere.
pub open spec fn spec_field_value(offset: u32, mask: u32, value: u32) -> u32 {
    (value & mask) << offset
}

/// The value that a field has in a register.
pub open spec fn spec_field_read(register: u32, offset: u32, mask: u32) -> u32 {
    (register >> offset) & mask
}

/// The register value with `value` in a field and all else as it was.
pub open spec fn spec_field_modify(register: u32, offset: u32, mask: u32, value: u32) -> u32 {
    (register & !(mask << offset)) | spec_field_value(offset, mask, value)
}

/// Whether a field has any bit set in a register.
pub open spec fn spec_field_is_set(register: u32, offset: u32, mask: u32) -> bool {
    register & (mask << offset) != 0
}

/// A field lies within a register: no bit of its mask is shifted out.
pub open spec fn field_fits(offset: u32, mask: u32) -> bool {
    offset < 32 && ((mask << offset) >> offset) == mask
}

/// The register value that holds `value` in a field and zero elsewhere.
pub fn field_value(offset: u32, mask: u32, value: u32) -> (register: u32)
    requires
        offset < 32,
    ensures
        register == spec_field_value(offset, mask, value),
{
    (value & mask) << offset
}

/// The value that a field has in a register.
pub fn field_read(register: u32, offset: u32, mask: u32) -> (value: u32)
    requires
        offset < 32,
    ensures
        value == spec_field_read(register, offset, mask),
{
    (register >> offset) & mask
}

/// The register value with `value` in a field and all else as it was.
pub fn field_modify(register: u32, offset: u32, mask: u32, value: u32) -> (modified: u32)
    requires
        offset < 32,
    ensures
        modified == spec_field_modify(register, offset, mask, value),
{
    (register & !(mask << offset)) | field_value(offset, mask, value)
}

/// Whether a field has any bit set in a register.
pub fn field_is_set(register: u32, offset: u32, mask: u32) -> (set: bool)
    requires
        offset < 32,
    ensures
        set == spec_field_is_set(register, offset, mask),
{
    register & (mask << offset) != 0
}

/// A field reads back as what it was modified or written to.
pub proof fn law_field_reads_back(register: u32, offset: u32, mask: u32, value: u32)
    requires
        field_fits(offset, mask),
    ensures
        spec_field_read(spec_field_modify(register, offset, mask, value), offset, mask) == value
            & mask,
        spec_field_read(spec_field_value(offset, mask, value), offset, mask) == value & mask,
{
    assert(((((register & !(mask << offset)) | ((value & mask) << offset)) >> offset) & mask) == (
    value & mask)) by (bit_vector)
        requires
            offset < 32,
            ((mask << offset) >> offset) == mask,
    ;
    assert(((((value & mask) << offset) >> offset) & mask) == (value & mask)) by (bit_vector)
        requires
            offset < 32,
            ((mask << offset) >> offset) == mask,
    ;
}

/// Modifying one field leaves any other field as it was.
pub proof fn law_field_keeps_others(
    register: u32,
    offset: u32,
    mask: u32,
    value: u32,
    other_offset: u32,
    other_mask: u32,
)
    requires
        field_fits(offset, mask),
        field_fits(other_offset, other_mask),
        (mask << offset) & (other_mask << other_offset) == 0,
    ensures
        spec_field_read(
            spec_field_modify(register, offset, mask, value),
            other_offset,
            other_mask,
        ) == spec_field_read(register, other_offset, other_mask),
{
    assert(((((register & !(mask << offset)) | ((value & mask) << offset)) >> other_offset)
        & other_mask) == ((register >> other_offset) & other_mask)) by (bit_vector)
        requires
            offset < 32,
            other_offset < 32,
            ((mask << offset) >> offset) == mask,
            ((other_mask << other_offset) >> other_offset) == other_mask,
            (mask << offset) & (other_mask << other_offset) == 0,
    ;
}

/// A field value has no bit outside the field, and modifying a field changes no bit
/// outside it.
pub proof fn law_field_stays_within(register: u32, offset: u32, mask: u32, value: u32)
    requires
        offset < 32,
    ensures
        spec_field_value(offset, mask, value) & !(mask << offset) == 0,
        spec_field_modify(register, offset, mask, value) & !(mask << offset) == register & !(mask
            << offset),
{
    assert(((value & mask) << offset) & !(mask << offset) == 0u32 && ((register & !(mask << offset))
        | ((value & mask) << offset)) & !(mask << offset) == register & !(mask << offset))
        by (bit_vector)
        requires
            offset < 32,
    ;
}

/// A field is set exactly where it reads as other than zero.
pub proof fn law_field_is_set(register: u32, offset: u32, mask: u32)
    requires
        field_fits(offset, mask),
    ensures
        spec_field_is_set(register, offset, mask) <==> spec_field_read(register, offset, mask) != 0,
{
    assert(register & (mask << offset) != 0u32 <==> (register >> offset) & mask != 0u32)
        by (bit_vector)
        requires
            offset < 32,
            ((mask << offset) >> offset) == mask,
    ;
}

/// A field at the foot of a register counts modulo a power of two, whatever else the value
/// or the register holds.
pub proof fn law_low_fields(value: u32)
    ensures
        spec_field_value(0, 0x1, value) == value % 2,
        spec_field_value(0, 0xF, value) == value % 16,
        spec_field_value(0, 0x3F, value) == value % 64,
        spec_field_value(0, 0xFFF, value) == value % 4096,
        spec_field_value(0, 0xFFFF, value) == value % 0x1_0000,
        spec_field_value(0, 0xFF_FFFF, value) == value % 0x100_0000,
        spec_field_read(value, 0, 0x1) == value % 2,
        spec_field_read(value, 0, 0xF) == value % 16,
        spec_field_read(value, 0, 0xFF_FFFF) == value % 0x100_0000,
        spec_field_is_set(value, 0, 0x1) <==> value % 2 == 1,
{
    assert((value & 0x1u32) << 0u32 == value % 2u32 && (value & 0xFu32) << 0u32 == value % 16u32
        && (value & 0x3Fu32) << 0u32 == value % 64u32 && (value & 0xFFFu32) << 0u32 == value
        % 4096u32 && (value & 0xFFFFu32) << 0u32 == value % 0x1_0000u32 && (value & 0xFF_FFFFu32)
        << 0u32 == value % 0x100_0000u32) by (bit_vector);
    assert((value >> 0u32) & 0x1u32 == value % 2u32 && (value >> 0u32) & 0xFu32 == value % 16u32
        && (value >> 0u32) & 0xFF_FFFFu32 == value % 0x100_0000u32 && (value & (0x1u32 << 0u32)
        != 0u32 <==> value % 2u32 == 1u32)) by (bit_vector);
}

} // verus!
