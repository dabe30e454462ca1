//! Measurement samples.

use vstd::prelude::*;

use crate::float::F32;

verus! {

/// A single measurement sample from an FNIRSI USB power meter.
#[derive(Debug, Clone, Copy, PartialEq, Eq, Structural)]
pub struct Sample {
    /// Timestamp in milliseconds (usually relative to stream start).
    pub timestamp_ms: u64,
    /// Voltage in volts.
    pub voltage_v: F32,
    /// Current in amps.
    pub current_a: F32,
    /// Power in watts (voltage times current).
    pub power_w: F32,
    /// D+ data line voltage in volts (USB only; zero for BLE).
    pub dp_v: F32,
    /// D- data line voltage in volts (USB only; zero for BLE).
    pub dn_v: F32,
    /// Temperature in degrees Celsius (USB only; zero for BLE).
    pub temp_c: F32,
    /// Raw voltage register value (unit 10 uV; 0 for BLE).
    pub raw_voltage: u32,
    /// Raw current register value (unit 10 uA; 0 for BLE).
    pub raw_current: u32,
}

/// A decoded data packet containing 4 samples.
pub type SamplePacket = [Sample; 4];

} // verus!
