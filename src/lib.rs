//! Decoding of a particulate-matter sensor's serial telemetry and conversion of
//! its readings into air quality index values.
pub mod aqi;
pub mod frame;
pub mod reading;
