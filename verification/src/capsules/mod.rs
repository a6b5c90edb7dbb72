pub mod flash_storage;
pub mod log_invariant;
pub mod log_laws;
pub mod log_layout;
pub mod log_numbers;
pub mod log_recovery;
pub mod log_storage;
pub mod log_view;
pub mod storage_interface;
pub mod word;
