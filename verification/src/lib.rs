//! Verified on-off keying radio driver: a 4b6b line code, a software PLL,
//! the transmitter and receiver state machines that drive a single digital
//! line, and a half-duplex driver that both sends and receives. The modules
//! `driver::link` and `ook_link` follow a message from one end of the line
//! to the other.
pub mod consts;
pub mod data_coding;
pub mod driver;
pub mod misc;
pub mod mock_pin;
pub mod ook_driver;
pub mod ook_link;
