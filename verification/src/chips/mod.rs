pub mod nrf53;
pub mod sam4l;
