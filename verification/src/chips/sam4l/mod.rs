pub mod gloc;
pub mod gpio;
