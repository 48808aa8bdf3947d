use pm_reader::aqi::{
    aqi, aqi_or_off_scale, pm10_table, pm25_table, regional_correction, tenths_to_hundredths,
    Breakpoint, OFF_SCALE,
};

#[test]
fn pm25_zero_is_zero() {
    assert_eq!(aqi(&pm25_table(), 0), Some(0));
}

#[test]
fn pm25_first_band_end_is_fifty() {
    assert_eq!(aqi(&pm25_table(), 1200), Some(50_000));
}

#[test]
fn pm25_above_table_is_off_scale() {
    assert_eq!(aqi(&pm25_table(), 50_050), None);
    assert_eq!(aqi(&pm25_table(), 50_041), None);
}

#[test]
fn pm25_last_band_end_is_five_hundred() {
    assert_eq!(aqi(&pm25_table(), 50_040), Some(500_000));
}

#[test]
fn pm10_zero_is_zero() {
    assert_eq!(aqi(&pm10_table(), 0), Some(0));
}

#[test]
fn pm10_band_ends() {
    // 604.0 ends the last band, at 300; above it the index is off scale.
    assert_eq!(aqi(&pm10_table(), 60_400), Some(300_000));
    assert_eq!(aqi(&pm10_table(), 60_401), None);
    // 424.0 lies inside the last band, which starts at 35.5 and index 201.
    assert_eq!(aqi(&pm10_table(), 42_400), Some(228_691));
    assert_eq!(aqi(&pm10_table(), 35_410), Some(201_000));
}

#[test]
fn empty_table_is_always_off_scale() {
    assert_eq!(aqi(&[], 0), None);
    assert_eq!(aqi(&[], -5), None);
}

#[test]
fn next_band_starts_at_its_low_index() {
    // 35.5 is one tenth above 35.4, the end of the band that reaches 100.
    assert_eq!(aqi(&pm25_table(), 3540), Some(100_000));
    assert_eq!(aqi(&pm25_table(), 3550), Some(101_000));
    assert_eq!(aqi(&pm10_table(), 5410), Some(51_000));
}

#[test]
fn interpolation_inside_a_band() {
    // 10.0 µg/m³: 50 / 12 * 10 = 41.6667.
    assert_eq!(aqi(&pm25_table(), 1000), Some(41_667));
    // 100.0 µg/m³: 151 + 49 / 94.9 * 44.5 = 173.977.
    assert_eq!(aqi(&pm25_table(), 10_000), Some(173_977));
}

#[test]
fn between_bands_falls_in_the_upper_band() {
    // 12.01 lies above 12.0 and below 12.1: interpolated in the second band,
    // just under its low index but above the first band's end.
    assert_eq!(aqi(&pm25_table(), 1201), Some(50_811));
}

#[test]
fn negative_concentration_extends_first_band() {
    // -0.66 µg/m³: 50 / 12 * -0.66 = -2.75.
    assert_eq!(aqi(&pm25_table(), -66), Some(-2750));
}

#[test]
fn index_never_falls_along_the_tables() {
    for table in [pm25_table(), pm10_table()] {
        let top = table[table.len() - 1].conc_high;
        let mut prev = aqi(&table, -100).unwrap();
        let mut c = -99;
        while c <= top {
            let v = aqi(&table, c).unwrap();
            assert!(v >= prev, "index fell at {}", c);
            prev = v;
            c += 1;
        }
    }
}

#[test]
fn custom_table() {
    let t = vec![
        Breakpoint { conc_high: 100, aqi_low: 0, aqi_high: 10 },
        Breakpoint { conc_high: 300, aqi_low: 11, aqi_high: 20 },
    ];
    assert_eq!(aqi(&t, 50), Some(5000));
    assert_eq!(aqi(&t, 110), Some(11_000));
    assert_eq!(aqi(&t, 300), Some(20_000));
    assert_eq!(aqi(&t, 301), None);
}

#[test]
fn regional_correction_values() {
    assert_eq!(regional_correction(0), -66);
    assert_eq!(regional_correction(100), 434);
    assert_eq!(regional_correction(65_535), 327_609);
}

#[test]
fn tenths_become_hundredths() {
    assert_eq!(tenths_to_hundredths(0), 0);
    assert_eq!(tenths_to_hundredths(123), 1230);
    assert_eq!(tenths_to_hundredths(65_535), 655_350);
}

#[test]
fn off_scale_marker() {
    assert_eq!(OFF_SCALE, 501_000);
    assert_eq!(aqi_or_off_scale(None), 501_000);
    assert_eq!(aqi_or_off_scale(Some(41_667)), 41_667);
    assert_eq!(aqi_or_off_scale(aqi(&pm25_table(), 60_000)), 501_000);
}
