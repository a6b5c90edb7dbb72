//! Verified logic for a set of Tock drivers: a log on flash, and the register
//! programming of a few peripherals.
//!
//! The library performs no I/O of its own. A driver takes the values of the registers it
//! reads as arguments and returns the writes to perform, in order. The log takes the
//! contents of the flash volume as an argument and returns the page operations to start.

pub mod boards;
pub mod capsules;
pub mod chips;
pub mod gpio;
pub mod registers;
pub mod return_code;
