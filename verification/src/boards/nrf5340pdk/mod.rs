pub mod spi_test;
