pub mod imix;
pub mod nrf5340pdk;
pub mod timing;
