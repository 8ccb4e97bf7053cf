//! Connection settings of the input device.

use vstd::prelude::*;
use core::time::Duration;
use crate::text::owned;

verus! {

/// The duration of `ms` milliseconds.
pub uninterp spec fn duration_of_millis(ms: u64) -> Duration;

pub assume_specification[ core::time::Duration::from_millis ](millis: u64) -> (r: Duration)
    ensures
        r == duration_of_millis(millis),
;

#[derive(Clone, Debug)]
pub struct MakcuConfig {
    pub port_name: String,
    pub baud_rate: u32,
    pub timeout_ms: u64,
    pub screen_width: u16,
    pub screen_height: u16,
}

impl Default for MakcuConfig {
    fn default() -> (r: Self)
        ensures
            r.port_name@ == "COM3"@,
            r.baud_rate == 115200,
            r.timeout_ms == 100,
            r.screen_width == 1920,
            r.screen_height == 1080,
    {
        MakcuConfig {
            port_name: owned("COM3"),
            baud_rate: 115200,
            timeout_ms: 100,
            screen_width: 1920,
            screen_height: 1080,
        }
    }
}

impl MakcuConfig {
    /// Default settings on the given port.
    pub fn new(port_name: &str) -> (r: Self)
        ensures
            r.port_name@ == port_name@,
            r.baud_rate == 115200,
            r.timeout_ms == 100,
            r.screen_width == 1920,
            r.screen_height == 1080,
    {
        MakcuConfig {
            port_name: owned(port_name),
            baud_rate: 115200,
            timeout_ms: 100,
            screen_width: 1920,
            screen_height: 1080,
        }
    }

    pub fn with_baud_rate(self, baud_rate: u32) -> (r: Self)
        ensures
            r == (MakcuConfig { baud_rate, ..self }),
    {
        let mut c = self;
        c.baud_rate = baud_rate;
        c
    }

    pub fn with_timeout(self, timeout_ms: u64) -> (r: Self)
        ensures
            r == (MakcuConfig { timeout_ms, ..self }),
    {
        let mut c = self;
        c.timeout_ms = timeout_ms;
        c
    }

    pub fn with_screen_size(self, width: u16, height: u16) -> (r: Self)
        ensures
            r == (MakcuConfig { screen_width: width, screen_height: height, ..self }),
    {
        let mut c = self;
        c.screen_width = width;
        c.screen_height = height;
        c
    }

    pub fn timeout_duration(&self) -> (r: Duration)
        ensures
            r == duration_of_millis(self.timeout_ms),
    {
        Duration::from_millis(self.timeout_ms)
    }
}

} // verus!
