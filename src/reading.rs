//! Decoding of a validated payload into a sample, and the record of index
//! values computed for each sample.
use crate::aqi::{
    aqi, aqi_of, corrected, pm10_table, pm10_table_spec, pm25_table, pm25_table_spec,
    regional_correction, tenths_to_hundredths, widen,
};
use vstd::prelude::*;

verus! {

/// The two concentrations that a payload carries, in tenths of µg/m³.
#[derive(Clone, Copy, Debug, PartialEq, Eq)]
pub struct Sample {
    pub pm25: u16,
    pub pm10: u16,
}

/// The unsigned 16-bit little-endian value of the bytes `lo`, `hi`.
pub open spec fn le16(lo: u8, hi: u8) -> int {
    lo + 256 * hi
}

/// Reads the PM2.5 field from payload bytes 0 and 1 and the PM10 field from
/// bytes 2 and 3, both little-endian.
pub fn decode_sample(payload: &[u8]) -> (s: Sample)
    requires
        payload@.len() >= 4,
    ensures
        s.pm25 == le16(payload@[0], payload@[1]),
        s.pm10 == le16(payload@[2], payload@[3]),
{
    let pm25 = payload[0] as u16 + 256 * (payload[1] as u16);
    let pm10 = payload[2] as u16 + 256 * (payload[3] as u16);
    Sample { pm25, pm10 }
}

/// Everything reported for one sample: both concentrations (tenths of
/// µg/m³), their indices, and the index of the regionally corrected PM2.5
/// concentration (indices in thousandths of a point, `None` when off scale).
#[derive(Clone, Copy, Debug, PartialEq, Eq)]
pub struct Reading {
    pub pm25: u16,
    pub pm25_aqi: Option<i64>,
    pub pm10: u16,
    pub pm10_aqi: Option<i64>,
    pub pm25_corrected_aqi: Option<i64>,
}

impl Reading {
    /// Computes the indices of a sample.
    pub fn from_sample(s: Sample) -> (r: Reading)
        ensures
            r.pm25 == s.pm25,
            r.pm10 == s.pm10,
            widen(r.pm25_aqi) == aqi_of(pm25_table_spec(), s.pm25 * 10),
            widen(r.pm10_aqi) == aqi_of(pm10_table_spec(), s.pm10 * 10),
            widen(r.pm25_corrected_aqi) == aqi_of(pm25_table_spec(), corrected(s.pm25 as int)),
    {
        let pm25_t = pm25_table();
        let pm10_t = pm10_table();
        let pm25_aqi = aqi(pm25_t.as_slice(), tenths_to_hundredths(s.pm25));
        let pm10_aqi = aqi(pm10_t.as_slice(), tenths_to_hundredths(s.pm10));
        let pm25_corrected_aqi = aqi(pm25_t.as_slice(), regional_correction(s.pm25));
        Reading { pm25: s.pm25, pm25_aqi, pm10: s.pm10, pm10_aqi, pm25_corrected_aqi }
    }

    /// Decodes a validated payload and computes its indices.
    pub fn from_payload(payload: &[u8]) -> (r: Reading)
        requires
            payload@.len() >= 4,
        ensures
            r.pm25 == le16(payload@[0], payload@[1]),
            r.pm10 == le16(payload@[2], payload@[3]),
            widen(r.pm25_aqi) == aqi_of(pm25_table_spec(), r.pm25 * 10),
            widen(r.pm10_aqi) == aqi_of(pm10_table_spec(), r.pm10 * 10),
            widen(r.pm25_corrected_aqi) == aqi_of(pm25_table_spec(), corrected(r.pm25 as int)),
    {
        Reading::from_sample(decode_sample(payload))
    }
}

} // verus!
