pub mod crt1;
pub mod rtc;
pub mod spi;
