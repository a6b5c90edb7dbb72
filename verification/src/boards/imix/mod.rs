pub mod gloc_test;
pub mod storage_test;
pub mod storage_test_laws;
