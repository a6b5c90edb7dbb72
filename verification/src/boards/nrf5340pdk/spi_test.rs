//! Exercise of an SPI master on the nRF5340 PDK: each press of a button toggles an LED
//! and sends a word, unless the word before is still being sent.

use vstd::prelude::*;

verus! {

/// The number of bytes to send.
pub const SEND_LEN: usize = 4;

/// Length of the buffer.
pub const BUFFER_LEN: usize = 64;

/// The word to send: "yeet".
pub open spec fn word() -> Seq<u8> {
    seq![0x79, 0x65, 0x65, 0x74]
}

/// A buffer that holds the word, followed by zeros.
pub fn word_buffer() -> (buffer: Vec<u8>)
    ensures
        buffer@ == word() + Seq::new((BUFFER_LEN - SEND_LEN) as nat, |i: int| 0u8),
        buffer@.len() == 64,
        buffer@.subrange(0, 4) == seq![0x79u8, 0x65, 0x65, 0x74],
        forall|i: int| 4 <= i < 64 ==> buffer@[i] == 0,
{
    let mut buffer: Vec<u8> = vec![0x79, 0x65, 0x65, 0x74];
    while buffer.len() < BUFFER_LEN
        invariant
            SEND_LEN <= buffer@.len() <= BUFFER_LEN,
            buffer@ == word() + Seq::new((buffer@.len() - SEND_LEN) as nat, |i: int| 0u8),
        decreases BUFFER_LEN - buffer@.len(),
    {
        buffer.push(0);
    }
    buffer
}

/// The exercise, with a buffer `B` to send.
pub struct SpiTest<B> {
    write_buffer: Option<B>,
    ready: bool,
}

impl<B> SpiTest<B> {
    /// Whether the exercise can send.
    pub closed spec fn ready(self) -> bool {
        self.ready
    }

    /// The buffer, unless it is being sent.
    pub closed spec fn buffer(self) -> Option<B> {
        self.write_buffer
    }

    /// Whenever the exercise can send, it has the buffer.
    pub open spec fn wf(self) -> bool {
        self.ready() ==> self.buffer() is Some
    }

    pub fn new(write_buffer: B) -> (test: SpiTest<B>)
        ensures
            test.wf(),
            test.ready(),
            test.buffer() == Some(write_buffer),
    {
        SpiTest { write_buffer: Some(write_buffer), ready: true }
    }

    /// What to do when the button is pressed: toggle the LED and send the first bytes of
    /// the returned buffer, if there is one.
    pub fn fired(&mut self) -> (send: Option<(B, usize)>)
        requires
            old(self).wf(),
        ensures
            final(self).wf(),
            if old(self).ready() {
                &&& send == Some((old(self).buffer()->0, SEND_LEN))
                &&& (send->0).1 == 4
                &&& !final(self).ready()
                &&& final(self).buffer() is None
            } else {
                &&& send is None
                &&& *final(self) == *old(self)
            },
    {
        if self.ready {
            self.run()
        } else {
            None
        }
    }

    /// Sends the buffer, see `fired`.
    pub fn run(&mut self) -> (send: Option<(B, usize)>)
        requires
            old(self).buffer() is Some,
        ensures
            send == Some((old(self).buffer()->0, SEND_LEN)),
            (send->0).1 == 4,
            !final(self).ready(),
            final(self).buffer() is None,
            final(self).wf(),
    {
        self.ready = false;
        match self.write_buffer.take() {
            Some(buffer) => Some((buffer, SEND_LEN)),
            None => None,
        }
    }

    /// Takes the buffer back once it has been sent.
    pub fn read_write_done(&mut self, write_buffer: B)
        ensures
            final(self).wf(),
            final(self).ready(),
            final(self).buffer() == Some(write_buffer),
    {
        self.write_buffer = Some(write_buffer);
        self.ready = true;
    }
}

} // verus!
