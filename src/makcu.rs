//! Text protocol of the serial input device: command builders, responses,
//! connection settings and errors.

pub mod config;
pub mod error;
pub mod keyboard;
pub mod led;
pub mod mouse;
pub mod system;
