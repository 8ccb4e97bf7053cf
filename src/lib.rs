//! Core logic of a screen-driven tower-defense automation: serial command
//! framing for the input device, scene recognition and path planning for
//! menu navigation, wave tracking, camera control and the build scheduler.
//!
//! Everything that touches the screen, the serial port or the clock is done
//! by the caller; this crate decides what to do and proves it.

pub mod camera;
pub mod frames;
pub mod makcu;
pub mod nav;
pub mod run;
pub mod scheduler;
pub mod td;
pub mod text;
pub mod wave;
