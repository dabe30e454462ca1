//! Verified core of a toolkit for FNIRSI USB power meters.

pub mod app;
pub mod ble;
pub mod cfn;
pub mod crc;
pub mod csv_utils;
pub mod decimation;
pub mod device;
pub mod dfu;
pub mod duration;
pub mod float;
pub mod formats;
pub mod logging;
pub mod plots;
pub mod protocol;
pub mod readers;
pub mod sample;
pub mod text;
pub mod usb;
