//! Manual exercise of the glue logic controller on the imix board.
//!
//! The second lookup table is set to act as a 4-way XOR between its inputs, the pins D5,
//! D4, D3 and RX3; however the input on RX3 is disabled and does not affect the output.
//! The output pin is D2, which is to be wired to pin D7. Once a second the exercise reads
//! D7, prints the level, and turns on the LED if it is high.

use crate::boards::timing::seconds_from;
use crate::chips::sam4l::gloc::{
    inputs_of, law_filter, law_inputs, lut_output, with_filter, with_inputs, without_inputs,
    xor_of_inputs, Lut, AEN, AEN_MASK, IN4, IN5, IN6, IN7,
};
use crate::chips::sam4l::gpio::{Pin, Port};
use crate::gpio::{PeripheralFunction, PinAction};
use vstd::prelude::*;

verus! {

/// The outputs of a 4-way XOR.
pub const TRUTH_TABLE: u16 = 0b0110_1001_1001_0110;

/// A request to the controller.
#[derive(Clone, Copy, Debug, PartialEq, Eq, Structural)]
pub enum GlocRequest {
    Enable,
    ConfigureLut(Lut, u16),
    EnableLutInputs(Lut, u8),
    DisableLutInputs(Lut, u8),
    EnableLutFilter(Lut),
}

/// Something for the board to do.
#[derive(Clone, Copy, Debug, PartialEq, Eq, Structural)]
pub enum Action {
    Pin(Pin, PinAction),
    Gloc(GlocRequest),
    /// Print the level of the output.
    PrintOut1(bool),
    SetAlarm(u32),
}

#[derive(Clone, Copy, Debug, PartialEq, Eq, Structural)]
pub enum GlocTestState {
    Initialization,
    Test,
}

/// The pins of the controller, and their function.
pub open spec fn gloc_pins() -> Seq<Pin> {
    seq![
        Pin { port: Port::PC, number: 28 },
        Pin { port: Port::PC, number: 29 },
        Pin { port: Port::PC, number: 30 },
        Pin { port: Port::PB, number: 9 },
        Pin { port: Port::PC, number: 31 },
    ]
}

/// The pin that the output is read from.
pub open spec fn out_pin() -> Pin {
    Pin { port: Port::PC, number: 26 }
}

/// The pin of the LED.
pub open spec fn led_pin() -> Pin {
    Pin { port: Port::PC, number: 10 }
}

/// The actions that set the exercise up: pins first, then the controller.
pub open spec fn setup_actions() -> Seq<Action> {
    gloc_pins().map_values(
        |pin: Pin| Action::Pin(pin, PinAction::SelectPeripheral(PeripheralFunction::C)),
    ) + seq![
        Action::Pin(out_pin(), PinAction::MakeInput),
        Action::Pin(led_pin(), PinAction::MakeOutput),
        Action::Pin(led_pin(), PinAction::SetLow),
        Action::Gloc(GlocRequest::Enable),
        Action::Gloc(GlocRequest::ConfigureLut(Lut::Lut1, TRUTH_TABLE)),
        Action::Gloc(GlocRequest::EnableLutInputs(Lut::Lut1, IN4 | IN5 | IN6 | IN7)),
        Action::Gloc(GlocRequest::DisableLutInputs(Lut::Lut1, IN7)),
        Action::Gloc(GlocRequest::EnableLutFilter(Lut::Lut1)),
    ]
}

/// The actions that show a level of the output.
pub open spec fn show_actions(out: bool) -> Seq<Action> {
    seq![
        Action::PrintOut1(out),
        Action::Pin(
            led_pin(),
            if out {
                PinAction::SetHigh
            } else {
                PinAction::SetLow
            },
        ),
    ]
}

/// What is printed for a level of the output.
pub fn out1_str(level: bool) -> (text: &'static str)
    ensures
        level ==> text@ == "GLOC OUT1: 1"@,
        !level ==> text@ == "GLOC OUT1: 0"@,
{
    if level {
        "GLOC OUT1: 1"
    } else {
        "GLOC OUT1: 0"
    }
}

/// The exercise.
pub struct GlocTest {
    state: GlocTestState,
}

impl GlocTest {
    pub closed spec fn state(self) -> GlocTestState {
        self.state
    }

    pub fn new() -> (test: GlocTest)
        ensures
            test.state() == GlocTestState::Initialization,
    {
        GlocTest { state: GlocTestState::Initialization }
    }

    /// Whether the next step reads the output.
    pub fn reads_output(&self) -> (reads: bool)
        ensures
            reads == (self.state() == GlocTestState::Test),
    {
        match self.state {
            GlocTestState::Initialization => false,
            GlocTestState::Test => true,
        }
    }

    /// What to do at the start, and each time the alarm fires. `out` is the level of the
    /// output, which matters only once the exercise has been set up; `now` and
    /// `frequency` are the alarm's.
    pub fn run(&mut self, out: bool, now: u32, frequency: u32) -> (actions: Vec<Action>)
        ensures
            final(self).state() == GlocTestState::Test,
            actions@ == match old(self).state() {
                GlocTestState::Initialization => setup_actions(),
                GlocTestState::Test => show_actions(out),
            }.push(Action::SetAlarm(((now + frequency) % 0x1_0000_0000) as u32)),
    {
        let out_pin = Pin { port: Port::PC, number: 26 };
        let led = Pin { port: Port::PC, number: 10 };
        let select = PinAction::SelectPeripheral(PeripheralFunction::C);
        let mut actions: Vec<Action> = match self.state {
            GlocTestState::Initialization => {
                self.state = GlocTestState::Test;
                vec![
                    // D5, D4, D3, RX3 and D2
                    Action::Pin(Pin { port: Port::PC, number: 28 }, select),
                    Action::Pin(Pin { port: Port::PC, number: 29 }, select),
                    Action::Pin(Pin { port: Port::PC, number: 30 }, select),
                    Action::Pin(Pin { port: Port::PB, number: 9 }, select),
                    Action::Pin(Pin { port: Port::PC, number: 31 }, select),
                    Action::Pin(out_pin, PinAction::MakeInput),
                    Action::Pin(led, PinAction::MakeOutput),
                    Action::Pin(led, PinAction::SetLow),
                    Action::Gloc(GlocRequest::Enable),
                    Action::Gloc(GlocRequest::ConfigureLut(Lut::Lut1, TRUTH_TABLE)),
                    Action::Gloc(GlocRequest::EnableLutInputs(Lut::Lut1, IN4 | IN5 | IN6 | IN7)),
                    Action::Gloc(GlocRequest::DisableLutInputs(Lut::Lut1, IN7)),
                    Action::Gloc(GlocRequest::EnableLutFilter(Lut::Lut1)),
                ]
            },
            GlocTestState::Test => {
                if out {
                    vec![Action::PrintOut1(true), Action::Pin(led, PinAction::SetHigh)]
                } else {
                    vec![Action::PrintOut1(false), Action::Pin(led, PinAction::SetLow)]
                }
            },
        };
        actions.push(Action::SetAlarm(self.wait(1, now, frequency)));
        actions
    }

    /// The alarm value that comes `secs` seconds after `now`.
    pub fn wait(&self, secs: u32, now: u32, frequency: u32) -> (tics: u32)
        requires
            secs * frequency <= u32::MAX,
        ensures
            tics == (now + secs * frequency) % 0x1_0000_0000,
    {
        seconds_from(now, secs, frequency)
    }
}

/// Once the exercise has been set up, whatever the control register `cr` of the table
/// was before, the output is the XOR of D5, D4 and D3, and RX3 does not affect it.
/// `inputs` are the levels of the four pins, from D5 up.
pub proof fn law_output_is_xor(cr: u32, inputs: u16)
    requires
        inputs < 16,
    ensures
        ({
            let enabled = inputs_of(
                with_filter(without_inputs(with_inputs(cr, IN4 | IN5 | IN6 | IN7), IN7), true),
            );
            &&& enabled == 0b0111
            &&& lut_output(TRUTH_TABLE, inputs & enabled as u16) == xor_of_inputs(inputs % 8)
        }),
{
    let on = with_inputs(cr, IN4 | IN5 | IN6 | IN7);
    let off = without_inputs(on, IN7);
    law_inputs(cr, IN4 | IN5 | IN6 | IN7);
    law_inputs(on, IN7);
    law_filter(off, true);
    let before: u32 = inputs_of(cr);
    assert(0b0001u8 | 0b0010u8 | 0b0100u8 | 0b1000u8 == 0b1111u8) by (bit_vector);
    assert((before | (0b1111u32 & 0xFu32)) & !0b1000u32 == 0b0111u32) by (bit_vector)
        requires
            before == (cr >> 0u32) & 0xFu32,
    ;
    assert(before == (cr >> AEN) & AEN_MASK);
    assert((0b0110_1001_1001_0110u16 >> (inputs & 7u16)) & 1u16 == 1u16 <==> ((inputs % 8u16) ^ ((
    inputs % 8u16) >> 1u16) ^ ((inputs % 8u16) >> 2u16) ^ ((inputs % 8u16) >> 3u16)) & 1u16 == 1u16)
        by (bit_vector)
        requires
            inputs < 16,
    ;
}

/// Which pins the exercise sets up: those of the controller get its function, the pin that
/// the output is read from becomes an input, and the LED an output that starts low. No other
/// pin is touched.
pub proof fn law_setup_pins(pin: Pin, action: PinAction)
    ensures
        setup_actions().contains(Action::Pin(pin, action)) <==> {
            ||| action == PinAction::SelectPeripheral(PeripheralFunction::C) && (pin.port
                == Port::PC && 28 <= pin.number <= 31 || pin.port == Port::PB && pin.number == 9)
            ||| action == PinAction::MakeInput && pin.port == Port::PC && pin.number == 26
            ||| action == PinAction::MakeOutput && pin.port == Port::PC && pin.number == 10
            ||| action == PinAction::SetLow && pin.port == Port::PC && pin.number == 10
        },
{
    let actions = setup_actions();
    let select = PinAction::SelectPeripheral(PeripheralFunction::C);
    assert(actions.len() == 13);
    assert(actions[0] == Action::Pin(Pin { port: Port::PC, number: 28 }, select));
    assert(actions[1] == Action::Pin(Pin { port: Port::PC, number: 29 }, select));
    assert(actions[2] == Action::Pin(Pin { port: Port::PC, number: 30 }, select));
    assert(actions[3] == Action::Pin(Pin { port: Port::PB, number: 9 }, select));
    assert(actions[4] == Action::Pin(Pin { port: Port::PC, number: 31 }, select));
    assert(actions[5] == Action::Pin(Pin { port: Port::PC, number: 26 }, PinAction::MakeInput));
    assert(actions[6] == Action::Pin(Pin { port: Port::PC, number: 10 }, PinAction::MakeOutput));
    assert(actions[7] == Action::Pin(Pin { port: Port::PC, number: 10 }, PinAction::SetLow));
    assert(actions[8] is Gloc && actions[9] is Gloc && actions[10] is Gloc && actions[11] is Gloc
        && actions[12] is Gloc);
}

/// The LED is turned off once its pin is an output. The controller is used only once every pin
/// is set up, and it is enabled before any other request. Only the second table is used: it is
/// set to a 4-way XOR, and all of its inputs are enabled before the last one is disabled.
pub proof fn law_setup_order(i: int, j: int)
    requires
        0 <= i < j < setup_actions().len(),
    ensures
        setup_actions()[i] is Gloc ==> setup_actions()[j] is Gloc,
        setup_actions()[i] is Gloc ==> setup_actions()[j] != Action::Gloc(GlocRequest::Enable),
        setup_actions()[i] == Action::Pin(Pin { port: Port::PC, number: 10 }, PinAction::SetLow)
            ==> setup_actions()[j] != Action::Pin(
            Pin { port: Port::PC, number: 10 },
            PinAction::MakeOutput,
        ),
        setup_actions().contains(Action::Gloc(GlocRequest::Enable)),
        setup_actions().subrange(9, 13) == seq![
            Action::Gloc(GlocRequest::ConfigureLut(Lut::Lut1, 0x6996)),
            Action::Gloc(GlocRequest::EnableLutInputs(Lut::Lut1, 0b1111)),
            Action::Gloc(GlocRequest::DisableLutInputs(Lut::Lut1, 0b1000)),
            Action::Gloc(GlocRequest::EnableLutFilter(Lut::Lut1)),
        ],
{
    assert(0b0001u8 | 0b0010u8 | 0b0100u8 | 0b1000u8 == 0b1111u8) by (bit_vector);
    assert(setup_actions()[8] == Action::Gloc(GlocRequest::Enable));
}

/// The LED shows the level of the output, which is printed as it is.
pub proof fn law_led_shows_output(out: bool)
    ensures
        show_actions(out).len() == 2,
        show_actions(out)[0] == Action::PrintOut1(out),
        show_actions(out).contains(
            Action::Pin(Pin { port: Port::PC, number: 10 }, PinAction::SetHigh),
        ) <==> out,
        show_actions(out).contains(
            Action::Pin(Pin { port: Port::PC, number: 10 }, PinAction::SetLow),
        ) <==> !out,
{
    assert(show_actions(out)[1] is Pin);
}

} // verus!
