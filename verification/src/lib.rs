//! Verified core of the fuel-station logger: MODBUS ASCII framing, Wiegand
//! keypad/card decoding, the per-station state machine and the pure parts of
//! the web API.

pub mod config;
pub mod gpio;
pub mod localtime;
pub mod models;
pub mod modbus;
pub mod routes;
pub mod station;
pub mod text;
pub mod tuf2000;
pub mod wiegand;
