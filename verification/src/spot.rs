//! One propagation report ("spot"): a single observed transmission.

use vstd::prelude::*;
use crate::power::Power;

verus! {

/// Mathematical image of a [`Spot`]: the same fields with byte strings as
/// sequences.
pub struct SpotV {
    pub id: u64,
    pub timestamp: u64,
    pub call_rx: Seq<u8>,
    pub grid_rx: Seq<u8>,
    pub snr: i8,
    pub frequency: u64,
    pub call_tx: Seq<u8>,
    pub grid_tx: Seq<u8>,
    pub power: i8,
    pub drift: i8,
    pub distance: u16,
}

/// One report from the feed.  Two reports count as the same observation
/// exactly when their ids are equal; call signs and grid locators are kept
/// verbatim and compared ASCII-case-insensitively.
#[derive(Debug)]
pub struct Spot {
    /// Unique integer identifying the report upstream.
    pub id: u64,
    /// Seconds since the Unix epoch.
    pub timestamp: u64,
    /// Reporting station's call sign.
    pub call_rx: Vec<u8>,
    /// Reporting station's grid locator.
    pub grid_rx: Vec<u8>,
    /// Signal-to-noise ratio in dB.
    pub snr: i8,
    /// Received frequency in exact integer Hz.
    pub frequency: u64,
    /// Transmitting station's call sign.
    pub call_tx: Vec<u8>,
    /// Transmitting station's grid locator.
    pub grid_tx: Vec<u8>,
    /// Transmit power as reported.
    pub power: Power,
    /// Frequency drift in Hz/s.
    pub drift: i8,
    /// Great-circle distance between the stations in km.
    pub distance: u16,
}

impl View for Spot {
    type V = SpotV;

    open spec fn view(&self) -> SpotV {
        SpotV {
            id: self.id,
            timestamp: self.timestamp,
            call_rx: self.call_rx@,
            grid_rx: self.grid_rx@,
            snr: self.snr,
            frequency: self.frequency,
            call_tx: self.call_tx@,
            grid_tx: self.grid_tx@,
            power: self.power.dbm,
            drift: self.drift,
            distance: self.distance,
        }
    }
}

/// The 120-second time bucket a timestamp falls in.
pub open spec fn spec_cycle_of(timestamp: u64) -> int {
    timestamp as int / 120
}

impl SpotV {
    /// The report's time bucket.
    pub open spec fn cycle(self) -> int {
        spec_cycle_of(self.timestamp)
    }
}

impl Spot {
    /// The report's 120-second time bucket.
    pub fn cycle(&self) -> (c: u64)
        ensures
            c == self@.cycle(),
    {
        self.timestamp / 120
    }
}

} // verus!
