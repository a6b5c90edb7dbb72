//! The real-time counter of the nRF53, used as an alarm.

use crate::registers::{
    field_is_set, field_read, field_value, law_field_reads_back, law_low_fields,
    spec_field_is_set, spec_field_read, spec_field_value, RegisterWrite,
};
use vstd::prelude::*;

verus! {

/// The base address of the first counter, as secure code sees it.
pub const RTC0_BASE_SECURE: u32 = 0x50014000;

// Registers, by their offset from the base address of a counter.
pub const TASKS_START: u32 = 0x000;

pub const TASKS_STOP: u32 = 0x004;

/// The event of a match with the first compare register.
pub const EVENTS_COMPARE0: u32 = 0x140;

pub const INTENSET: u32 = 0x304;

pub const INTENCLR: u32 = 0x308;

pub const EVTEN: u32 = 0x340;

pub const COUNTER: u32 = 0x504;

pub const PRESCALER: u32 = 0x508;

/// The first compare register.
pub const CC0: u32 = 0x540;

// Fields, by their offset and mask.
pub const TASK_ENABLE: u32 = 0;

pub const EVENT_READY: u32 = 0;

pub const INTE_COMPARE0: u32 = 16;

pub const PRESCALER_PRESCALER: u32 = 0;

pub const PRESCALER_MASK: u32 = 0xFFF;

pub const COUNTER_VALUE: u32 = 0;

/// The counter has 24 bits.
pub const COUNTER_MASK: u32 = 0xFF_FFFF;

/// The mask of any field of one bit.
pub const BIT: u32 = 1;

/// A counter, with a handle `C` of its client.
pub struct Rtc<C> {
    /// The base address of the registers.
    pub registers: u32,
    pub callback: Option<C>,
}

impl<C: Copy> Rtc<C> {
    /// The registers lie within the address space.
    pub open spec fn wf(self) -> bool {
        self.registers <= 0xFFFF_F000
    }

    /// A write to a register of this counter.
    pub open spec fn write_to(self, offset: u32, value: u32) -> RegisterWrite {
        RegisterWrite { address: (self.registers + offset) as u32, value }
    }

    fn write(&self, offset: u32, value: u32) -> (write: RegisterWrite)
        requires
            self.wf(),
            offset < 0x1000,
        ensures
            write == self.write_to(offset, value),
    {
        RegisterWrite { address: self.registers + offset, value }
    }

    /// The first counter, without a client.
    pub fn new() -> (rtc: Self)
        ensures
            rtc.wf(),
            rtc == (Rtc::<C> { registers: RTC0_BASE_SECURE, callback: None }),
            rtc.registers == 0x50014000,
    {
        Rtc { registers: RTC0_BASE_SECURE, callback: None }
    }

    /// Sets the client, which is called when an alarm fires.
    pub fn configure(&mut self, client: C)
        ensures
            *final(self) == (Rtc { callback: Some(client), ..*old(self) }),
    {
        self.callback = Some(client);
    }

    /// The writes that start the counter at its full frequency.
    pub fn start(&self) -> (writes: Vec<RegisterWrite>)
        requires
            self.wf(),
        ensures
            writes@ == seq![
                self.write_to(
                    PRESCALER,
                    spec_field_value(PRESCALER_PRESCALER, PRESCALER_MASK, 0),
                ),
                self.write_to(TASKS_START, spec_field_value(TASK_ENABLE, BIT, 1)),
            ],
            writes@ == seq![
                RegisterWrite { address: (self.registers + 0x508) as u32, value: 0 },
                RegisterWrite { address: (self.registers + 0x000) as u32, value: 1 },
            ],
    {
        proof {
            lemma_field_values();
            law_low_fields(0);
            law_low_fields(1);
        }
        vec![
            self.write(PRESCALER, field_value(PRESCALER_PRESCALER, PRESCALER_MASK, 0)),
            self.write(TASKS_START, field_value(TASK_ENABLE, BIT, 1)),
        ]
    }

    /// The writes that stop the counter.
    pub fn stop(&self) -> (writes: Vec<RegisterWrite>)
        requires
            self.wf(),
        ensures
            writes@ == seq![
                self.write_to(CC0, spec_field_value(COUNTER_VALUE, COUNTER_MASK, 0)),
                self.write_to(TASKS_STOP, spec_field_value(TASK_ENABLE, BIT, 1)),
            ],
            writes@ == seq![
                RegisterWrite { address: (self.registers + 0x540) as u32, value: 0 },
                RegisterWrite { address: (self.registers + 0x004) as u32, value: 1 },
            ],
    {
        proof {
            lemma_field_values();
            law_low_fields(0);
            law_low_fields(1);
        }
        vec![
            self.write(CC0, field_value(COUNTER_VALUE, COUNTER_MASK, 0)),
            self.write(TASKS_STOP, field_value(TASK_ENABLE, BIT, 1)),
        ]
    }

    /// Whether compare events are routed, from the value of the event register.
    pub fn is_running(&self, evten: u32) -> (running: bool)
        ensures
            running == spec_field_is_set(evten, INTE_COMPARE0, BIT),
            running == (evten / 0x1_0000 % 2 == 1),
    {
        proof {
            lemma_compare_bit(evten);
        }
        field_is_set(evten, INTE_COMPARE0, BIT)
    }

    /// What to do when the alarm fires: the writes that put it out, and the client to
    /// call after them, if there is one.
    pub fn handle_interrupt(&self) -> (result: (Vec<RegisterWrite>, Option<C>))
        requires
            self.wf(),
        ensures
            result.0@ == seq![
                self.write_to(EVENTS_COMPARE0, spec_field_value(EVENT_READY, BIT, 0)),
                self.write_to(INTENCLR, spec_field_value(INTE_COMPARE0, BIT, 1)),
            ],
            result.0@ == seq![
                RegisterWrite { address: (self.registers + 0x140) as u32, value: 0 },
                RegisterWrite { address: (self.registers + 0x308) as u32, value: 0x1_0000 },
            ],
            result.1 == self.callback,
    {
        proof {
            lemma_field_values();
            law_low_fields(0);
        }
        let writes = vec![
            self.write(EVENTS_COMPARE0, field_value(EVENT_READY, BIT, 0)),
            self.write(INTENCLR, field_value(INTE_COMPARE0, BIT, 1)),
        ];
        (writes, self.callback)
    }

    /// The current time, from the value of the counter register.
    pub fn now(&self, counter: u32) -> (now: u32)
        ensures
            now == spec_field_read(counter, COUNTER_VALUE, COUNTER_MASK),
            now == counter % 0x100_0000,
            now < 0x100_0000,
    {
        proof {
            lemma_counter_bounds(counter);
        }
        field_read(counter, COUNTER_VALUE, COUNTER_MASK)
    }

    /// The highest time before the counter starts again at zero.
    pub fn max_tics(&self) -> (max: u32)
        ensures
            max == 0xFF_FFFF,
    {
        0xFF_FFFF
    }

    /// Sets the client, which is called when an alarm fires.
    pub fn set_client(&mut self, client: C)
        ensures
            *final(self) == (Rtc { callback: Some(client), ..*old(self) }),
    {
        self.callback = Some(client);
    }

    /// The writes that set the alarm to a time.
    pub fn set_alarm(&self, tics: u32) -> (writes: Vec<RegisterWrite>)
        requires
            self.wf(),
        ensures
            writes@ == seq![
                self.write_to(INTENSET, spec_field_value(INTE_COMPARE0, BIT, 1)),
                self.write_to(CC0, spec_field_value(COUNTER_VALUE, COUNTER_MASK, tics)),
                self.write_to(EVENTS_COMPARE0, spec_field_value(EVENT_READY, BIT, 0)),
            ],
            writes@ == seq![
                RegisterWrite { address: (self.registers + 0x304) as u32, value: 0x1_0000 },
                RegisterWrite {
                    address: (self.registers + 0x540) as u32,
                    value: tics % 0x100_0000,
                },
                RegisterWrite { address: (self.registers + 0x140) as u32, value: 0 },
            ],
    {
        proof {
            lemma_field_values();
            law_low_fields(0);
            law_low_fields(tics);
        }
        vec![
            self.write(INTENSET, field_value(INTE_COMPARE0, BIT, 1)),
            self.write(CC0, field_value(COUNTER_VALUE, COUNTER_MASK, tics)),
            self.write(EVENTS_COMPARE0, field_value(EVENT_READY, BIT, 0)),
        ]
    }

    /// The time that the alarm is set to, from the value of the first compare register.
    pub fn get_alarm(&self, cc0: u32) -> (tics: u32)
        ensures
            tics == spec_field_read(cc0, COUNTER_VALUE, COUNTER_MASK),
            tics == cc0 % 0x100_0000,
            tics < 0x100_0000,
    {
        proof {
            lemma_counter_bounds(cc0);
        }
        field_read(cc0, COUNTER_VALUE, COUNTER_MASK)
    }

    /// The writes that disable the alarm.
    pub fn disable(&self) -> (writes: Vec<RegisterWrite>)
        requires
            self.wf(),
        ensures
            writes@ == seq![
                self.write_to(INTENCLR, spec_field_value(INTE_COMPARE0, BIT, 1)),
                self.write_to(EVENTS_COMPARE0, spec_field_value(EVENT_READY, BIT, 0)),
            ],
            writes@ == seq![
                RegisterWrite { address: (self.registers + 0x308) as u32, value: 0x1_0000 },
                RegisterWrite { address: (self.registers + 0x140) as u32, value: 0 },
            ],
    {
        proof {
            lemma_field_values();
            law_low_fields(0);
        }
        vec![
            self.write(INTENCLR, field_value(INTE_COMPARE0, BIT, 1)),
            self.write(EVENTS_COMPARE0, field_value(EVENT_READY, BIT, 0)),
        ]
    }

    /// Whether the alarm is enabled, from the value of the event register.
    pub fn is_enabled(&self, evten: u32) -> (enabled: bool)
        ensures
            enabled == spec_field_is_set(evten, INTE_COMPARE0, BIT),
            enabled == (evten / 0x1_0000 % 2 == 1),
    {
        self.is_running(evten)
    }
}

proof fn lemma_field_values()
    ensures
        spec_field_value(INTE_COMPARE0, BIT, 1) == 0x1_0000,
{
    assert((1u32 & 1u32) << 16u32 == 0x1_0000u32) by (bit_vector);
}

proof fn lemma_compare_bit(register: u32)
    ensures
        spec_field_is_set(register, INTE_COMPARE0, BIT) <==> register / 0x1_0000 % 2 == 1,
{
    assert(register & (1u32 << 16u32) != 0u32 <==> register / 0x1_0000u32 % 2u32 == 1u32)
        by (bit_vector);
}

/// The compare interrupt is bit 16 of the interrupt registers: it is enabled, disabled and
/// looked for there, and setting it bears on no other bit. The counter shows times modulo
/// 2 to the 24th.
pub proof fn law_fields_in_numbers(register: u32, tics: u32)
    ensures
        spec_field_value(INTE_COMPARE0, BIT, 1) == 0x1_0000,
        spec_field_is_set(register, INTE_COMPARE0, BIT) <==> register / 0x1_0000 % 2 == 1,
        spec_field_value(COUNTER_VALUE, COUNTER_MASK, tics) == tics % 0x100_0000,
        spec_field_read(register, COUNTER_VALUE, COUNTER_MASK) == register % 0x100_0000,
{
    lemma_field_values();
    lemma_compare_bit(register);
    law_low_fields(tics);
    law_low_fields(register);
}

proof fn lemma_counter_bounds(register: u32)
    ensures
        spec_field_read(register, COUNTER_VALUE, COUNTER_MASK) == register % 0x100_0000,
        spec_field_read(register, COUNTER_VALUE, COUNTER_MASK) < 0x100_0000,
{
    assert((register >> 0u32) & 0xFF_FFFFu32 == register % 0x100_0000u32) by (bit_vector);
}

/// The alarm reads back as the time it was set to, as far as the counter reaches: a
/// time that the counter can show reads back unchanged.
pub proof fn law_alarm_reads_back(tics: u32)
    ensures
        spec_field_read(
            spec_field_value(COUNTER_VALUE, COUNTER_MASK, tics),
            COUNTER_VALUE,
            COUNTER_MASK,
        ) == tics % 0x100_0000,
        tics < 0x100_0000 ==> spec_field_read(
            spec_field_value(COUNTER_VALUE, COUNTER_MASK, tics),
            COUNTER_VALUE,
            COUNTER_MASK,
        ) == tics,
{
    assert((0xFF_FFFFu32 << 0u32) >> 0u32 == 0xFF_FFFFu32 && tics & 0xFF_FFFFu32 == tics
        % 0x100_0000u32) by (bit_vector);
    law_field_reads_back(0, COUNTER_VALUE, COUNTER_MASK, tics);
}

} // verus!
