//! SPI masters (`SPIM`) of the nRF53, which transfer by EasyDMA.

use crate::gpio::PinAction;
use crate::registers::{
    field_is_set, field_modify, field_read, field_value, law_field_keeps_others,
    law_field_reads_back, law_low_fields, spec_field_is_set, spec_field_modify, spec_field_read,
    spec_field_value, RegisterWrite,
};
use crate::return_code::ReturnCode;
use vstd::prelude::*;

verus! {

/// The number of SPI masters.
pub const NUM_INSTANCES: usize = 5;

// Registers, by their offset from the base address of a master.
pub const TASK_START: u32 = 0x010;

pub const EVENT_STOPPED: u32 = 0x104;

pub const EVENT_ENDRX: u32 = 0x110;

pub const EVENT_END: u32 = 0x118;

pub const EVENT_ENDTX: u32 = 0x120;

pub const EVENT_STARTED: u32 = 0x14C;

pub const INTENSET: u32 = 0x304;

pub const ENABLE: u32 = 0x500;

pub const PSEL_SCK: u32 = 0x508;

pub const PSEL_MOSI: u32 = 0x50C;

pub const PSEL_MISO: u32 = 0x510;

pub const FREQUENCY: u32 = 0x524;

pub const RXD_PTR: u32 = 0x534;

pub const RXD_MAXCNT: u32 = 0x538;

pub const TXD_PTR: u32 = 0x544;

pub const TXD_MAXCNT: u32 = 0x548;

pub const CONFIG: u32 = 0x554;

// Fields, by their offset and mask.
pub const TASK_ENABLE: u32 = 0;

pub const EVENT_READY: u32 = 0;

pub const INTERRUPT_END: u32 = 6;

pub const ENABLE_ENABLE: u32 = 0;

pub const ENABLE_MASK: u32 = 0xF;

/// The value of the enable field of a master that is enabled.
pub const ENABLED: u32 = 7;

/// The value of the enable field of a master that is disabled.
pub const DISABLED: u32 = 0;

pub const PSEL_PIN: u32 = 0;

/// The highest bit of a pin number is the port.
pub const PIN_MASK: u32 = 0x3F;

pub const COUNTER: u32 = 0;

/// Transfers are counted by 16 bits.
pub const COUNTER_MASK: u32 = 0xFFFF;

pub const CONFIG_CPHA: u32 = 1;

pub const CONFIG_CPOL: u32 = 2;

/// The mask of any field of one bit.
pub const BIT: u32 = 1;

/// The clock rates that a master supports.
#[derive(Clone, Copy, Debug, PartialEq, Eq, Structural)]
pub enum Frequency {
    K125,
    K250,
    K500,
    M1,
    M2,
    M4,
    M8,
    M16,
    M32,
}

impl Frequency {
    /// The value of the frequency register that selects the rate.
    pub open spec fn spec_register_value(self) -> u32 {
        match self {
            Frequency::K125 => 0x02000000,
            Frequency::K250 => 0x04000000,
            Frequency::K500 => 0x08000000,
            Frequency::M1 => 0x10000000,
            Frequency::M2 => 0x20000000,
            Frequency::M4 => 0x40000000,
            Frequency::M8 => 0x80000000,
            Frequency::M16 => 0x0A000000,
            Frequency::M32 => 0x14000000,
        }
    }

    /// The rate in bits per second.
    pub open spec fn rate(self) -> u32 {
        match self {
            Frequency::K125 => 125_000,
            Frequency::K250 => 250_000,
            Frequency::K500 => 500_000,
            Frequency::M1 => 1_000_000,
            Frequency::M2 => 2_000_000,
            Frequency::M4 => 4_000_000,
            Frequency::M8 => 8_000_000,
            Frequency::M16 => 16_000_000,
            Frequency::M32 => 32_000_000,
        }
    }

    /// The rate that a request for `freq` bits per second gets: the highest that is
    /// supported and not above it, or the lowest of all where all are above it.
    pub open spec fn serves(self, freq: u32) -> bool {
        &&& self.rate() <= freq || self == Frequency::K125
        &&& forall|other: Frequency| #[trigger] other.rate() <= freq ==> other.rate() <= self.rate()
    }

    /// The rate that a value of the frequency register selects, if it selects any.
    pub open spec fn selected_by(register: u32) -> Option<Frequency> {
        match register {
            0x02000000 => Some(Frequency::K125),
            0x04000000 => Some(Frequency::K250),
            0x08000000 => Some(Frequency::K500),
            0x10000000 => Some(Frequency::M1),
            0x20000000 => Some(Frequency::M2),
            0x40000000 => Some(Frequency::M4),
            0x80000000 => Some(Frequency::M8),
            0x0A000000 => Some(Frequency::M16),
            0x14000000 => Some(Frequency::M32),
            _ => None,
        }
    }

    /// The value of the frequency register that selects the rate.
    pub fn register_value(&self) -> (value: u32)
        ensures
            value == self.spec_register_value(),
    {
        match *self {
            Frequency::K125 => 0x02000000,
            Frequency::K250 => 0x04000000,
            Frequency::K500 => 0x08000000,
            Frequency::M1 => 0x10000000,
            Frequency::M2 => 0x20000000,
            Frequency::M4 => 0x40000000,
            Frequency::M8 => 0x80000000,
            Frequency::M16 => 0x0A000000,
            Frequency::M32 => 0x14000000,
        }
    }

    /// The rate that a value of the frequency register selects, if it selects any.
    pub fn from_register(reg: u32) -> (frequency: Option<Frequency>)
        ensures
            frequency == Self::selected_by(reg),
            match frequency {
                Some(frequency) => frequency.spec_register_value() == reg,
                None => forall|other: Frequency| #[trigger] other.spec_register_value() != reg,
            },
    {
        match reg {
            0x02000000 => Some(Frequency::K125),
            0x04000000 => Some(Frequency::K250),
            0x08000000 => Some(Frequency::K500),
            0x10000000 => Some(Frequency::M1),
            0x20000000 => Some(Frequency::M2),
            0x40000000 => Some(Frequency::M4),
            0x80000000 => Some(Frequency::M8),
            0x0A000000 => Some(Frequency::M16),
            0x14000000 => Some(Frequency::M32),
            _ => None,
        }
    }

    /// The rate in bits per second.
    pub fn into_spi_rate(&self) -> (rate: u32)
        ensures
            rate == self.rate(),
    {
        match *self {
            Frequency::K125 => 125_000,
            Frequency::K250 => 250_000,
            Frequency::K500 => 500_000,
            Frequency::M1 => 1_000_000,
            Frequency::M2 => 2_000_000,
            Frequency::M4 => 4_000_000,
            Frequency::M8 => 8_000_000,
            Frequency::M16 => 16_000_000,
            Frequency::M32 => 32_000_000,
        }
    }

    /// The highest rate that is supported and not above `freq` bits per second, or the
    /// lowest of all where all are above it.
    pub fn from_spi_rate(freq: u32) -> (frequency: Frequency)
        ensures
            frequency.serves(freq),
    {
        if freq < 250_000 {
            Frequency::K125
        } else if freq < 500_000 {
            Frequency::K250
        } else if freq < 1_000_000 {
            Frequency::K500
        } else if freq < 2_000_000 {
            Frequency::M1
        } else if freq < 4_000_000 {
            Frequency::M2
        } else if freq < 8_000_000 {
            Frequency::M4
        } else if freq < 16_000_000 {
            Frequency::M8
        } else if freq < 32_000_000 {
            Frequency::M16
        } else {
            Frequency::M32
        }
    }

    /// Each rate is selected by its register value, and by no other.
    pub proof fn law_register_value_reads_back(self, register: u32)
        ensures
            Self::selected_by(register) == Some(self) <==> register == self.spec_register_value(),
    {
    }

    /// A request is served by one rate only.
    pub proof fn law_serving_rate_is_unique(self, other: Self, freq: u32)
        requires
            self.serves(freq),
            other.serves(freq),
        ensures
            self == other,
    {
        assert(self.rate() <= freq ==> self.rate() <= other.rate());
        assert(other.rate() <= freq ==> other.rate() <= self.rate());
    }

    /// The supported rates are 125 kbps, and its doubles up to 32 Mbps. The register value of
    /// every rate up to 8 Mbps counts the multiples of 125 kbps in its highest seven bits; the
    /// two rates above have values of their own.
    pub proof fn law_register_in_numbers(self)
        ensures
            self.rate() <= 8_000_000 ==> self.spec_register_value() == (self.rate() / 125_000)
                * 0x02000000,
            self.rate() == 16_000_000 ==> self.spec_register_value() == 0x0A000000,
            self.rate() == 32_000_000 ==> self.spec_register_value() == 0x14000000,
            self.rate() == 125_000 || self.rate() == 250_000 || self.rate() == 500_000
                || self.rate() == 1_000_000 || self.rate() == 2_000_000 || self.rate() == 4_000_000
                || self.rate() == 8_000_000 || self.rate() == 16_000_000 || self.rate()
                == 32_000_000,
    {
    }

    /// A register value that is `count` times the value of 125 kbps selects the rate of
    /// `count` times 125 kbps, where that is a power of two up to 64; two more values select
    /// 16 and 32 Mbps; and no other value selects a rate.
    pub proof fn law_selected_in_numbers(register: u32)
        ensures
            ({
                let count = register as int / 0x02000000;
                let plain = register == count * 0x02000000 && (count == 1 || count == 2 || count
                    == 4 || count == 8 || count == 16 || count == 32 || count == 64);
                match Self::selected_by(register) {
                    Some(frequency) => {
                        ||| plain && frequency.rate() == count * 125_000
                        ||| register == 0x0A000000 && frequency.rate() == 16_000_000
                        ||| register == 0x14000000 && frequency.rate() == 32_000_000
                    },
                    None => !plain && register != 0x0A000000 && register != 0x14000000,
                }
            }),
    {
    }

    /// A request is served by a rate that is not above it, unless all are, and that is more
    /// than half of it, unless it is the highest. A higher request never gets a lower rate.
    pub proof fn law_served_in_numbers(self, freq: u32, other: Self, other_freq: u32)
        requires
            self.serves(freq),
            other.serves(other_freq),
        ensures
            freq >= 125_000 ==> self.rate() <= freq,
            freq < 125_000 ==> self.rate() == 125_000,
            freq < 32_000_000 ==> freq < 2 * self.rate(),
            freq >= 32_000_000 ==> self.rate() == 32_000_000,
            freq <= other_freq ==> self.rate() <= other.rate(),
    {
        assert(Frequency::K125.rate() == 125_000 && Frequency::K250.rate() == 250_000
            && Frequency::K500.rate() == 500_000 && Frequency::M1.rate() == 1_000_000
            && Frequency::M2.rate() == 2_000_000 && Frequency::M4.rate() == 4_000_000
            && Frequency::M8.rate() == 8_000_000 && Frequency::M16.rate() == 16_000_000
            && Frequency::M32.rate() == 32_000_000);
    }

    /// A request for a rate that is supported gets that rate.
    pub proof fn law_supported_rate_is_served(self)
        ensures
            self.serves(self.rate()),
    {
    }
}

/// The level of the clock while no bit is transferred.
#[derive(Clone, Copy, Debug, PartialEq, Eq, Structural)]
pub enum ClockPolarity {
    IdleLow,
    IdleHigh,
}

/// The edge of the clock on which bits are sampled.
#[derive(Clone, Copy, Debug, PartialEq, Eq, Structural)]
pub enum ClockPhase {
    SampleLeading,
    SampleTrailing,
}

/// A buffer in memory that the peripheral reads or fills by itself.
#[derive(Clone, Copy, Debug, PartialEq, Eq, Structural)]
pub struct DmaBuffer {
    pub address: u32,
    pub len: usize,
}

/// What to do to start a transfer: clear the chip select, then write the registers in
/// order.
pub struct Transfer<P> {
    pub chip_select: P,
    pub writes: Vec<RegisterWrite>,
}

/// A call of a client with the buffers of a transfer and the number of bytes
/// transferred.
pub struct ReadWriteDone<C> {
    pub client: C,
    pub tx_buf: DmaBuffer,
    pub rx_buf: Option<DmaBuffer>,
    pub len: usize,
}

/// What to do about the event that ends a transfer.
pub enum EndEvent<C, P> {
    /// The event did not occur.
    NotEnded,
    /// It occurred without a chip select: leave all events as they are.
    NoChipSelect,
    /// Set the chip select, perform the write, and call the client.
    Transferred { chip_select: P, write: RegisterWrite, done: Option<ReadWriteDone<C>> },
}

/// The write that clears an event, where the event is set.
pub open spec fn clear_event(address: int, event: u32) -> Seq<RegisterWrite> {
    if spec_field_is_set(event, EVENT_READY, BIT) {
        seq![
            RegisterWrite {
                address: address as u32,
                value: spec_field_value(EVENT_READY, BIT, 0),
            },
        ]
    } else {
        Seq::empty()
    }
}

/// The lower of two lengths.
pub open spec fn spec_min(a: usize, b: usize) -> usize {
    if a <= b {
        a
    } else {
        b
    }
}

/// The configuration register with the clock polarity set.
pub open spec fn with_clock(config: u32, polarity: ClockPolarity) -> u32 {
    spec_field_modify(
        config,
        CONFIG_CPOL,
        BIT,
        match polarity {
            ClockPolarity::IdleLow => 0,
            ClockPolarity::IdleHigh => 1,
        },
    )
}

/// The clock polarity in the configuration register.
pub open spec fn clock_of(config: u32) -> ClockPolarity {
    if spec_field_read(config, CONFIG_CPOL, BIT) == 0 {
        ClockPolarity::IdleLow
    } else {
        ClockPolarity::IdleHigh
    }
}

/// The configuration register with the clock phase set.
pub open spec fn with_phase(config: u32, phase: ClockPhase) -> u32 {
    spec_field_modify(
        config,
        CONFIG_CPHA,
        BIT,
        match phase {
            ClockPhase::SampleLeading => 0,
            ClockPhase::SampleTrailing => 1,
        },
    )
}

/// The clock phase in the configuration register.
pub open spec fn phase_of(config: u32) -> ClockPhase {
    if spec_field_read(config, CONFIG_CPHA, BIT) == 0 {
        ClockPhase::SampleLeading
    } else {
        ClockPhase::SampleTrailing
    }
}

/// The lower of two lengths.
fn min(a: usize, b: usize) -> (lower: usize)
    ensures
        lower == spec_min(a, b),
{
    if a <= b {
        a
    } else {
        b
    }
}

/// An SPI master, with handles `C` of its client and `P` of its chip select.
pub struct SPIM<C, P> {
    /// The base address of the registers.
    pub registers: u32,
    pub client: Option<C>,
    pub chip_select: Option<P>,
    pub initialized: bool,
    pub busy: bool,
    pub tx_buf: Option<DmaBuffer>,
    pub rx_buf: Option<DmaBuffer>,
    pub transfer_len: usize,
}

/// The base address of a master, as secure code sees it.
pub open spec fn secure_instance(instance: usize) -> u32 {
    match instance {
        0 => 0x50008000,
        1 => 0x50009000,
        2 => 0x5000B000,
        3 => 0x5000C000,
        _ => 0x5000A000,
    }
}

impl<C: Copy, P: Copy> SPIM<C, P> {
    /// The registers lie within the address space, and a transfer is under way only
    /// while a chip select is known.
    pub open spec fn wf(self) -> bool {
        &&& self.registers <= 0xFFFF_F000
        &&& self.busy ==> self.chip_select is Some
    }

    /// A write to a register of this master.
    pub open spec fn write_to(self, offset: u32, value: u32) -> RegisterWrite {
        RegisterWrite { address: (self.registers + offset) as u32, value }
    }

    /// The master can take a transfer.
    pub open spec fn ready(self) -> bool {
        &&& self.initialized
        &&& !self.busy
        &&& self.tx_buf is None
        &&& self.rx_buf is None
    }

    /// The master once a transfer has been started.
    pub open spec fn started(
        self,
        tx_buf: DmaBuffer,
        rx_buf: Option<DmaBuffer>,
        len: usize,
    ) -> Self {
        SPIM {
            busy: true,
            tx_buf: Some(tx_buf),
            rx_buf,
            transfer_len: Self::transferred(tx_buf, rx_buf, len),
            ..self
        }
    }

    /// The master once the end of a transfer has been seen: the buffers have left it if
    /// there is a client to have them.
    pub open spec fn ended(self) -> Self {
        if self.client is Some && self.tx_buf is Some {
            SPIM { tx_buf: None, rx_buf: None, transfer_len: 0, ..self }
        } else {
            self
        }
    }

    /// The master once the end of a transfer has been dealt with.
    pub open spec fn idle(self) -> Self {
        SPIM { busy: false, ..self }
    }

    /// A master with a client is ready for a transfer again once one has ended.
    pub proof fn law_ready_after_transfer(
        self,
        tx_buf: DmaBuffer,
        rx_buf: Option<DmaBuffer>,
        len: usize,
    )
        requires
            self.ready(),
            self.client is Some,
        ensures
            self.started(tx_buf, rx_buf, len).ended().idle().ready(),
            self.started(tx_buf, rx_buf, len).ended().idle() == (SPIM { transfer_len: 0, ..self }),
    {
    }

    fn write(&self, offset: u32, value: u32) -> (write: RegisterWrite)
        requires
            self.wf(),
            offset < 0x1000,
        ensures
            write == self.write_to(offset, value),
    {
        RegisterWrite { address: self.registers + offset, value }
    }

    /// A master that has not been initialised.
    pub fn new(instance: usize) -> (spim: Self)
        requires
            instance < NUM_INSTANCES,
        ensures
            spim.wf(),
            spim == (SPIM::<C, P> {
                registers: secure_instance(instance),
                client: None,
                chip_select: None,
                initialized: false,
                busy: false,
                tx_buf: None,
                rx_buf: None,
                transfer_len: 0,
            }),
    {
        let registers: u32 = match instance {
            0 => 0x50008000,
            1 => 0x50009000,
            2 => 0x5000B000,
            3 => 0x5000C000,
            _ => 0x5000A000,
        };
        SPIM {
            registers,
            client: None,
            chip_select: None,
            initialized: false,
            busy: false,
            tx_buf: None,
            rx_buf: None,
            transfer_len: 0,
        }
    }

    /// What to do on an interrupt about the event that ends a transfer, whose register
    /// reads as `event_end`. Where the transfer has ended, `end_handled` follows once
    /// the client has been called; unless the chip select is missing, the other events
    /// are to be cleared after that (see `clear_events`).
    pub fn handle_interrupt(&mut self, event_end: u32) -> (event: EndEvent<C, P>)
        requires
            old(self).wf(),
        ensures
            final(self).wf(),
            !spec_field_is_set(event_end, EVENT_READY, BIT) ==> event is NotEnded && *final(self)
                == *old(self),
            spec_field_is_set(event_end, EVENT_READY, BIT) && old(self).chip_select is None
                ==> event is NoChipSelect && *final(self) == *old(self),
            spec_field_is_set(event_end, EVENT_READY, BIT) && old(self).chip_select is Some ==> {
                &&& event matches EndEvent::Transferred { chip_select, write, done }
                &&& Some(chip_select) == old(self).chip_select
                &&& seq![write] == clear_event(old(self).registers + EVENT_END, event_end)
                &&& write.address == old(self).registers + 0x118 && write.value == 0
                &&& if old(self).client is Some && old(self).tx_buf is Some {
                    &&& done matches Some(done)
                    &&& Some(done.client) == old(self).client
                    &&& Some(done.tx_buf) == old(self).tx_buf
                    &&& done.rx_buf == old(self).rx_buf
                    &&& done.len == old(self).transfer_len
                } else {
                    done is None
                }
                &&& *final(self) == old(self).ended()
            },
            event is NotEnded <==> event_end % 2 == 0,
    {
        proof {
            law_low_fields(event_end);
            law_low_fields(0);
        }
        if !field_is_set(event_end, EVENT_READY, BIT) {
            return EndEvent::NotEnded;
        }
        match self.chip_select {
            None => EndEvent::NoChipSelect,
            Some(chip_select) => {
                let write = self.write(EVENT_END, field_value(EVENT_READY, BIT, 0));
                let done = match (self.client, self.tx_buf) {
                    (Some(client), Some(tx_buf)) => {
                        let rx_buf = self.rx_buf;
                        let len: usize = self.transfer_len;
                        self.tx_buf = None;
                        self.rx_buf = None;
                        self.transfer_len = 0;
                        Some(ReadWriteDone { client, tx_buf, rx_buf, len })
                    },
                    _ => None,
                };
                EndEvent::Transferred { chip_select, write, done }
            },
        }
    }

    /// Notes that the end of a transfer has been dealt with.
    pub fn end_handled(&mut self)
        requires
            old(self).wf(),
        ensures
            final(self).wf(),
            *final(self) == old(self).idle(),
    {
        self.busy = false;
    }

    /// The writes that clear the events which occur besides the end of a transfer, from
    /// the values of their registers.
    pub fn clear_events(
        &self,
        event_stopped: u32,
        event_endrx: u32,
        event_endtx: u32,
        event_started: u32,
    ) -> (writes: Vec<RegisterWrite>)
        requires
            self.wf(),
        ensures
            writes@ == clear_event(self.registers + EVENT_STOPPED, event_stopped) + clear_event(
                self.registers + EVENT_ENDRX,
                event_endrx,
            ) + clear_event(self.registers + EVENT_ENDTX, event_endtx) + clear_event(
                self.registers + EVENT_STARTED,
                event_started,
            ),
            writes@.len() == event_stopped % 2 + event_endrx % 2 + event_endtx % 2 + event_started
                % 2,
            event_stopped % 2 == 1 <==> writes@.contains(
                RegisterWrite { address: (self.registers + 0x104) as u32, value: 0 },
            ),
            event_endrx % 2 == 1 <==> writes@.contains(
                RegisterWrite { address: (self.registers + 0x110) as u32, value: 0 },
            ),
            event_endtx % 2 == 1 <==> writes@.contains(
                RegisterWrite { address: (self.registers + 0x120) as u32, value: 0 },
            ),
            event_started % 2 == 1 <==> writes@.contains(
                RegisterWrite { address: (self.registers + 0x14C) as u32, value: 0 },
            ),
    {
        proof {
            law_low_fields(event_stopped);
            law_low_fields(event_endrx);
            law_low_fields(event_endtx);
            law_low_fields(event_started);
            law_low_fields(0);
        }
        let mut writes: Vec<RegisterWrite> = Vec::new();
        let clear: u32 = field_value(EVENT_READY, BIT, 0);
        if field_is_set(event_stopped, EVENT_READY, BIT) {
            writes.push(self.write(EVENT_STOPPED, clear));
        }
        let ghost stopped = writes@.len();
        if field_is_set(event_endrx, EVENT_READY, BIT) {
            writes.push(self.write(EVENT_ENDRX, clear));
        }
        let ghost received = writes@.len();
        if field_is_set(event_endtx, EVENT_READY, BIT) {
            writes.push(self.write(EVENT_ENDTX, clear));
        }
        let ghost sent = writes@.len();
        if field_is_set(event_started, EVENT_READY, BIT) {
            writes.push(self.write(EVENT_STARTED, clear));
        }
        proof {
            assert(event_stopped % 2 == 1 ==> writes@[0].address == self.registers + 0x104);
            assert(event_endrx % 2 == 1 ==> writes@[stopped as int].address == self.registers
                + 0x110);
            assert(event_endtx % 2 == 1 ==> writes@[received as int].address == self.registers
                + 0x120);
            assert(event_started % 2 == 1 ==> writes@[sent as int].address == self.registers
                + 0x14C);
        }
        writes
    }

    /// The writes that connect the pins, given by their numbers, and enable the master.
    pub fn configure(&self, mosi: u32, miso: u32, sck: u32) -> (writes: Vec<RegisterWrite>)
        requires
            self.wf(),
        ensures
            writes@ == seq![
                self.write_to(PSEL_MOSI, spec_field_value(PSEL_PIN, PIN_MASK, mosi)),
                self.write_to(PSEL_MISO, spec_field_value(PSEL_PIN, PIN_MASK, miso)),
                self.write_to(PSEL_SCK, spec_field_value(PSEL_PIN, PIN_MASK, sck)),
                self.write_to(ENABLE, spec_field_value(ENABLE_ENABLE, ENABLE_MASK, ENABLED)),
            ],
            writes@ == seq![
                RegisterWrite { address: (self.registers + 0x50C) as u32, value: mosi % 64 },
                RegisterWrite { address: (self.registers + 0x510) as u32, value: miso % 64 },
                RegisterWrite { address: (self.registers + 0x508) as u32, value: sck % 64 },
                RegisterWrite { address: (self.registers + 0x500) as u32, value: 7 },
            ],
    {
        proof {
            law_low_fields(mosi);
            law_low_fields(miso);
            law_low_fields(sck);
            law_low_fields(ENABLED);
        }
        vec![
            self.write(PSEL_MOSI, field_value(PSEL_PIN, PIN_MASK, mosi)),
            self.write(PSEL_MISO, field_value(PSEL_PIN, PIN_MASK, miso)),
            self.write(PSEL_SCK, field_value(PSEL_PIN, PIN_MASK, sck)),
            self.enable(),
        ]
    }

    /// The write that enables the master.
    pub fn enable(&self) -> (write: RegisterWrite)
        requires
            self.wf(),
        ensures
            write == self.write_to(ENABLE, spec_field_value(ENABLE_ENABLE, ENABLE_MASK, ENABLED)),
            write.address == self.registers + 0x500,
            write.value == 7,
    {
        proof {
            law_low_fields(ENABLED);
        }
        self.write(ENABLE, field_value(ENABLE_ENABLE, ENABLE_MASK, ENABLED))
    }

    /// The write that disables the master.
    pub fn disable(&self) -> (write: RegisterWrite)
        requires
            self.wf(),
        ensures
            write == self.write_to(ENABLE, spec_field_value(ENABLE_ENABLE, ENABLE_MASK, DISABLED)),
            write.address == self.registers + 0x500,
            write.value == 0,
    {
        proof {
            law_low_fields(DISABLED);
        }
        self.write(ENABLE, field_value(ENABLE_ENABLE, ENABLE_MASK, DISABLED))
    }

    /// Whether the master is enabled, from the value of its enable register.
    pub fn is_enabled(&self, enable: u32) -> (enabled: bool)
        ensures
            enabled == (spec_field_read(enable, ENABLE_ENABLE, ENABLE_MASK) == ENABLED),
            enabled == (enable % 16 == 7),
    {
        proof {
            law_low_fields(enable);
        }
        field_read(enable, ENABLE_ENABLE, ENABLE_MASK) == ENABLED
    }

    /// Sets the client, which is called when a transfer has ended.
    pub fn set_client(&mut self, client: C)
        requires
            old(self).wf(),
        ensures
            final(self).wf(),
            *final(self) == (SPIM { client: Some(client), ..*old(self) }),
    {
        self.client = Some(client);
    }

    /// Initialises the master; the write has it interrupt at the end of each transfer.
    pub fn init(&mut self) -> (write: RegisterWrite)
        requires
            old(self).wf(),
        ensures
            final(self).wf(),
            *final(self) == (SPIM { initialized: true, ..*old(self) }),
            write == old(self).write_to(INTENSET, spec_field_value(INTERRUPT_END, BIT, 1)),
            write.address == old(self).registers + 0x304,
            write.value == 0x40,
    {
        assert((1u32 & 1u32) << 6u32 == 0x40u32) by (bit_vector);
        let write = self.write(INTENSET, field_value(INTERRUPT_END, BIT, 1));
        self.initialized = true;
        write
    }

    /// Whether a transfer is under way.
    pub fn is_busy(&self) -> (busy: bool)
        ensures
            busy == self.busy,
    {
        self.busy
    }

    /// What the registers are set to for a transfer of at most `len` bytes.
    pub open spec fn transfer_writes(
        self,
        tx_buf: DmaBuffer,
        rx_buf: Option<DmaBuffer>,
        len: usize,
    ) -> Seq<RegisterWrite> {
        let tx_len = spec_min(len, tx_buf.len) as u32;
        let (rx_address, rx_len) = match rx_buf {
            None => (0u32, 0u32),
            Some(rx_buf) => (rx_buf.address, spec_min(len, rx_buf.len) as u32),
        };
        seq![
            self.write_to(TXD_PTR, tx_buf.address),
            self.write_to(TXD_MAXCNT, spec_field_value(COUNTER, COUNTER_MASK, tx_len)),
            self.write_to(RXD_PTR, rx_address),
            self.write_to(RXD_MAXCNT, spec_field_value(COUNTER, COUNTER_MASK, rx_len)),
            self.write_to(TASK_START, spec_field_value(TASK_ENABLE, BIT, 1)),
        ]
    }

    /// The number of bytes that a transfer of at most `len` bytes is reported to have
    /// transferred.
    pub open spec fn transferred(
        tx_buf: DmaBuffer,
        rx_buf: Option<DmaBuffer>,
        len: usize,
    ) -> usize {
        let tx_len = spec_min(len, tx_buf.len) as u32;
        match rx_buf {
            None => tx_len as usize,
            Some(rx_buf) => spec_min(tx_len as usize, spec_min(len, rx_buf.len) as u32 as usize),
        }
    }

    /// Whatever the buffers and the requested length, the peripheral is pointed at the buffers
    /// and counts no byte beyond the requested length or the end of a buffer. It counts as many
    /// as are asked for, or else as the buffer holds, wherever that fits its counter. Without a
    /// buffer to receive into, it receives nothing. The start comes last.
    pub proof fn law_transfer_stays_within_buffers(
        self,
        tx_buf: DmaBuffer,
        rx_buf: Option<DmaBuffer>,
        len: usize,
    )
        requires
            self.wf(),
        ensures
            ({
                let writes = self.transfer_writes(tx_buf, rx_buf, len);
                let tx_count = writes[1].value;
                let rx_count = writes[3].value;
                &&& writes.len() == 5
                &&& writes[0].address == self.registers + 0x544 && writes[0].value
                    == tx_buf.address
                &&& writes[1].address == self.registers + 0x548
                &&& writes[2].address == self.registers + 0x534
                &&& writes[3].address == self.registers + 0x538
                &&& writes[4].address == self.registers + 0x10 && writes[4].value == 1
                &&& tx_count <= len && tx_count <= tx_buf.len
                &&& len <= 0xFFFF || tx_buf.len <= 0xFFFF ==> tx_count == len || tx_count
                    == tx_buf.len
                &&& match rx_buf {
                    Some(rx_buf) => {
                        &&& writes[2].value == rx_buf.address
                        &&& rx_count <= len && rx_count <= rx_buf.len
                        &&& len <= 0xFFFF || rx_buf.len <= 0xFFFF ==> rx_count == len || rx_count
                            == rx_buf.len
                    },
                    None => writes[2].value == 0 && rx_count == 0,
                }
            }),
    {
        let tx_len: u32 = spec_min(len, tx_buf.len) as u32;
        law_low_fields(tx_len);
        law_low_fields(0);
        law_low_fields(1);
        if rx_buf is Some {
            let rx_len: u32 = spec_min(len, rx_buf->0.len) as u32;
            law_low_fields(rx_len);
        }
    }

    /// A transfer keeps its buffers in the master, which is busy until the end is dealt with.
    /// What is reported is the lower of the bytes sent and the bytes received, or the bytes
    /// sent where nothing is received. At the end the buffers leave the master only if there
    /// is a client to have them.
    pub proof fn law_transfer_is_reported(
        self,
        tx_buf: DmaBuffer,
        rx_buf: Option<DmaBuffer>,
        len: usize,
    )
        ensures
            ({
                let started = self.started(tx_buf, rx_buf, len);
                let reported = started.transfer_len;
                let ended = started.ended();
                &&& started.busy && started.tx_buf == Some(tx_buf) && started.rx_buf == rx_buf
                &&& reported <= len && reported <= tx_buf.len
                &&& rx_buf matches Some(rx_buf) ==> reported <= rx_buf.len
                &&& len <= u32::MAX ==> match rx_buf {
                    Some(rx_buf) => reported == len || reported == tx_buf.len || reported
                        == rx_buf.len,
                    None => reported == len || reported == tx_buf.len,
                }
                &&& self.client is Some ==> ended.tx_buf is None && ended.rx_buf is None
                    && ended.transfer_len == 0
                &&& self.client is None ==> ended == started
                &&& ended.busy && !ended.idle().busy
                &&& ended.registers == self.registers && ended.client == self.client
                    && ended.chip_select == self.chip_select && ended.initialized
                    == self.initialized
                &&& ended.idle() == (SPIM { busy: false, ..ended })
            }),
    {
    }

    /// Starts a transfer of at most `len` bytes out of one buffer and into another.
    /// Fails with `ENODEVICE` where no chip select is known.
    pub fn read_write_bytes(
        &mut self,
        tx_buf: DmaBuffer,
        rx_buf: Option<DmaBuffer>,
        len: usize,
    ) -> (result: Result<Transfer<P>, ReturnCode>)
        requires
            old(self).wf(),
            old(self).ready(),
        ensures
            final(self).wf(),
            match result {
                Err(error) => {
                    &&& old(self).chip_select is None
                    &&& error == ReturnCode::ENODEVICE
                    &&& *final(self) == *old(self)
                },
                Ok(transfer) => {
                    &&& Some(transfer.chip_select) == old(self).chip_select
                    &&& transfer.writes@ == old(self).transfer_writes(tx_buf, rx_buf, len)
                    &&& *final(self) == old(self).started(tx_buf, rx_buf, len)
                    &&& transfer.writes@[1].value <= len && transfer.writes@[1].value <= tx_buf.len
                    &&& transfer.writes@[3].value <= len
                    &&& rx_buf matches Some(rx_buf) ==> transfer.writes@[3].value <= rx_buf.len
                    &&& rx_buf is None ==> transfer.writes@[3].value == 0
                },
            },
    {
        proof {
            self.law_transfer_stays_within_buffers(tx_buf, rx_buf, len);
        }
        let chip_select = match self.chip_select {
            None => {
                return Err(ReturnCode::ENODEVICE);
            },
            Some(chip_select) => chip_select,
        };
        let tx_len: u32 = min(len, tx_buf.len) as u32;
        let mut writes: Vec<RegisterWrite> = vec![
            self.write(TXD_PTR, tx_buf.address),
            self.write(TXD_MAXCNT, field_value(COUNTER, COUNTER_MASK, tx_len)),
        ];
        self.tx_buf = Some(tx_buf);
        match rx_buf {
            None => {
                writes.push(self.write(RXD_PTR, 0));
                writes.push(self.write(RXD_MAXCNT, field_value(COUNTER, COUNTER_MASK, 0)));
                self.transfer_len = tx_len as usize;
            },
            Some(buf) => {
                writes.push(self.write(RXD_PTR, buf.address));
                let rx_len: u32 = min(len, buf.len) as u32;
                writes.push(self.write(RXD_MAXCNT, field_value(COUNTER, COUNTER_MASK, rx_len)));
                self.transfer_len = min(tx_len as usize, rx_len as usize);
            },
        }
        self.rx_buf = rx_buf;
        self.busy = true;
        writes.push(self.write(TASK_START, field_value(TASK_ENABLE, BIT, 1)));
        Ok(Transfer { chip_select, writes })
    }

    /// Sets the chip select, a pin on which the returned actions are to be performed.
    pub fn specify_chip_select(&mut self, cs: P) -> (actions: Vec<PinAction>)
        requires
            old(self).wf(),
        ensures
            final(self).wf(),
            actions@ == seq![PinAction::MakeOutput, PinAction::SetHigh],
            *final(self) == (SPIM { chip_select: Some(cs), ..*old(self) }),
    {
        self.chip_select = Some(cs);
        vec![PinAction::MakeOutput, PinAction::SetHigh]
    }

    /// The write that sets the clock rate, and the rate that was actually set.
    pub fn set_rate(&self, rate: u32) -> (result: (RegisterWrite, u32))
        requires
            self.wf(),
            self.initialized,
        ensures
            exists|frequency: Frequency| #[trigger]
                frequency.serves(rate) && result == (
                    self.write_to(FREQUENCY, frequency.spec_register_value()),
                    frequency.rate(),
                ),
            result.0.address == self.registers + 0x524,
            rate >= 125_000 ==> result.1 <= rate,
            rate < 32_000_000 ==> rate < 2 * result.1,
            result.1 <= 8_000_000 ==> result.0.value == (result.1 / 125_000) * 0x02000000,
            result.1 == 16_000_000 ==> result.0.value == 0x0A000000,
            result.1 == 32_000_000 ==> result.0.value == 0x14000000,
    {
        let f = Frequency::from_spi_rate(rate);
        proof {
            f.law_served_in_numbers(rate, f, rate);
            f.law_register_in_numbers();
        }
        (self.write(FREQUENCY, f.register_value()), f.into_spi_rate())
    }

    /// The clock rate, from the value of the frequency register.
    pub fn get_rate(&self, frequency: u32) -> (rate: u32)
        requires
            self.initialized,
            Frequency::selected_by(frequency) is Some,
        ensures
            rate == Frequency::selected_by(frequency)->0.rate(),
    {
        match Frequency::from_register(frequency) {
            Some(f) => f.into_spi_rate(),
            None => 0,
        }
    }

    /// The write that sets the clock polarity in a configuration register that reads as
    /// `config`.
    pub fn set_clock(&self, polarity: ClockPolarity, config: u32) -> (write: RegisterWrite)
        requires
            self.wf(),
            self.initialized,
        ensures
            write == self.write_to(CONFIG, with_clock(config, polarity)),
            write.address == self.registers + 0x554,
            write.value == match polarity {
                ClockPolarity::IdleLow => config & !4u32,
                ClockPolarity::IdleHigh => config | 4,
            },
    {
        proof {
            law_configuration_in_numbers(config);
        }
        let new_polarity: u32 = match polarity {
            ClockPolarity::IdleLow => 0,
            ClockPolarity::IdleHigh => 1,
        };
        self.write(CONFIG, field_modify(config, CONFIG_CPOL, BIT, new_polarity))
    }

    /// The clock polarity, from the value of the configuration register.
    pub fn get_clock(&self, config: u32) -> (polarity: ClockPolarity)
        requires
            self.initialized,
        ensures
            polarity == clock_of(config),
    {
        match field_read(config, CONFIG_CPOL, BIT) {
            0 => ClockPolarity::IdleLow,
            _ => ClockPolarity::IdleHigh,
        }
    }

    /// The write that sets the clock phase in a configuration register that reads as
    /// `config`.
    pub fn set_phase(&self, phase: ClockPhase, config: u32) -> (write: RegisterWrite)
        requires
            self.wf(),
            self.initialized,
        ensures
            write == self.write_to(CONFIG, with_phase(config, phase)),
            write.address == self.registers + 0x554,
            write.value == match phase {
                ClockPhase::SampleLeading => config & !2u32,
                ClockPhase::SampleTrailing => config | 2,
            },
    {
        proof {
            law_configuration_in_numbers(config);
        }
        let new_phase: u32 = match phase {
            ClockPhase::SampleLeading => 0,
            ClockPhase::SampleTrailing => 1,
        };
        self.write(CONFIG, field_modify(config, CONFIG_CPHA, BIT, new_phase))
    }

    /// The clock phase, from the value of the configuration register.
    pub fn get_phase(&self, config: u32) -> (phase: ClockPhase)
        requires
            self.initialized,
        ensures
            phase == phase_of(config),
    {
        match field_read(config, CONFIG_CPHA, BIT) {
            0 => ClockPhase::SampleLeading,
            _ => ClockPhase::SampleTrailing,
        }
    }
}

/// The clock polarity reads back as it was set, whatever phase is set before or after,
/// and the phase likewise.
pub proof fn law_clock_and_phase_read_back(config: u32, polarity: ClockPolarity, phase: ClockPhase)
    ensures
        clock_of(with_clock(config, polarity)) == polarity,
        phase_of(with_phase(config, phase)) == phase,
        clock_of(with_phase(config, phase)) == clock_of(config),
        phase_of(with_clock(config, polarity)) == phase_of(config),
{
    assert((1u32 << 2u32) >> 2u32 == 1u32 && (1u32 << 1u32) >> 1u32 == 1u32 && (1u32 << 2u32) & (
    1u32 << 1u32) == 0u32 && (1u32 << 1u32) & (1u32 << 2u32) == 0u32 && 0u32 & 1u32 == 0u32 && 1u32
        & 1u32 == 1u32) by (bit_vector);
    let clock: u32 = match polarity {
        ClockPolarity::IdleLow => 0,
        ClockPolarity::IdleHigh => 1,
    };
    let edge: u32 = match phase {
        ClockPhase::SampleLeading => 0,
        ClockPhase::SampleTrailing => 1,
    };
    law_field_reads_back(config, CONFIG_CPOL, BIT, clock);
    law_field_reads_back(config, CONFIG_CPHA, BIT, edge);
    law_field_keeps_others(config, CONFIG_CPHA, BIT, edge, CONFIG_CPOL, BIT);
    law_field_keeps_others(config, CONFIG_CPOL, BIT, clock, CONFIG_CPHA, BIT);
}

/// A rate that is set reads back as the rate that was actually set.
pub proof fn law_rate_reads_back(frequency: Frequency)
    ensures
        Frequency::selected_by(frequency.spec_register_value()) is Some,
        Frequency::selected_by(frequency.spec_register_value())->0.rate() == frequency.rate(),
{
}

/// A master reads back as enabled from the register value that enables it, and as
/// disabled from the one that disables it.
pub proof fn law_enable_reads_back()
    ensures
        spec_field_read(
            spec_field_value(ENABLE_ENABLE, ENABLE_MASK, ENABLED),
            ENABLE_ENABLE,
            ENABLE_MASK,
        ) == ENABLED,
        spec_field_read(
            spec_field_value(ENABLE_ENABLE, ENABLE_MASK, DISABLED),
            ENABLE_ENABLE,
            ENABLE_MASK,
        ) != ENABLED,
{
    assert((0xFu32 << 0u32) >> 0u32 == 0xFu32 && 7u32 & 0xFu32 == 7u32 && 0u32 & 0xFu32 == 0u32)
        by (bit_vector);
    law_field_reads_back(0, ENABLE_ENABLE, ENABLE_MASK, ENABLED);
    law_field_reads_back(0, ENABLE_ENABLE, ENABLE_MASK, DISABLED);
}

/// An event is cleared exactly where its lowest bit is set, by one write of zero to its
/// register.
pub proof fn law_event_is_cleared(address: int, event: u32)
    requires
        0 <= address <= u32::MAX,
    ensures
        clear_event(address, event).len() == event % 2,
        event % 2 == 1 ==> clear_event(address, event)[0].address == address && clear_event(
            address,
            event,
        )[0].value == 0,
{
    law_low_fields(event);
    law_low_fields(0);
}

/// The clock polarity is the third bit of the configuration register and the phase the
/// second, set for a clock that is high while idle and for bits that are sampled on the
/// trailing edge; no other bit changes with them.
pub proof fn law_configuration_in_numbers(config: u32)
    ensures
        with_clock(config, ClockPolarity::IdleHigh) == config | 4,
        with_clock(config, ClockPolarity::IdleLow) == config & !4u32,
        clock_of(config) == ClockPolarity::IdleHigh <==> config & 4 != 0,
        with_phase(config, ClockPhase::SampleTrailing) == config | 2,
        with_phase(config, ClockPhase::SampleLeading) == config & !2u32,
        phase_of(config) == ClockPhase::SampleTrailing <==> config & 2 != 0,
{
    assert((config & !(1u32 << 2u32)) | ((1u32 & 1u32) << 2u32) == config | 4u32 && (config & !(1u32
        << 2u32)) | ((0u32 & 1u32) << 2u32) == config & !4u32 && (((config >> 2u32) & 1u32 == 0u32)
        <==> config & 4u32 == 0u32)) by (bit_vector);
    assert((config & !(1u32 << 1u32)) | ((1u32 & 1u32) << 1u32) == config | 2u32 && (config & !(1u32
        << 1u32)) | ((0u32 & 1u32) << 1u32) == config & !2u32 && (((config >> 1u32) & 1u32 == 0u32)
        <==> config & 2u32 == 0u32)) by (bit_vector);
}

/// The masters lie at different addresses, each at the start of a block of registers.
pub proof fn law_instances(instance: usize, other: usize)
    requires
        instance < NUM_INSTANCES,
        other < NUM_INSTANCES,
    ensures
        NUM_INSTANCES == 5,
        secure_instance(instance) == 0x50000000 + 0x1000 * seq![8int, 9, 11, 12, 10][
            instance as int],
        secure_instance(instance) == secure_instance(other) ==> instance == other,
{
    assert(seq![8int, 9, 11, 12, 10].len() == 5);
}

} // verus!
