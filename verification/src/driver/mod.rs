pub mod pll;
pub mod receiver;
pub mod transmitter;
pub mod link;
