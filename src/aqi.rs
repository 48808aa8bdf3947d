//! Piecewise-linear conversion from a particulate concentration to an air
//! quality index, and the linear regional correction of PM2.5 readings.
//!
//! Concentrations are integers in hundredths of a microgram per cubic metre;
//! index values are integers in thousandths of an index point, rounded half up.
use vstd::arithmetic::div_mod::{
    lemma_div_is_ordered, lemma_fundamental_div_mod, lemma_fundamental_div_mod_converse,
};
use vstd::prelude::*;

verus! {

/// One band of a breakpoint table: the band ends at `conc_high` (inclusive),
/// where the index reaches `aqi_high`; it starts one tenth of a unit above the
/// previous band's end (or at zero for the first band), at `aqi_low`.
#[derive(Clone, Copy, Debug, PartialEq, Eq)]
pub struct Breakpoint {
    pub conc_high: i32,
    pub aqi_low: u16,
    pub aqi_high: u16,
}

/// Distance from one band's end to the next band's start: 0.1 µg/m³.
pub const BAND_STEP: i64 = 10;

/// Index values are carried in thousandths of a point.
pub const AQI_SCALE: i64 = 1000;

/// Value shown in place of an off-scale index (501.000); every index on the
/// scale is at most 500.
pub const OFF_SCALE: i64 = 501000;

/// Lower concentration bound of band `i`.
pub open spec fn lower_at(t: Seq<Breakpoint>, i: int) -> int {
    if i == 0 {
        0
    } else {
        t[i - 1].conc_high + BAND_STEP
    }
}

/// `n / d` rounded to the nearest integer, halves rounded up.
pub open spec fn round_div(n: int, d: int) -> int {
    (2 * n + d) / (2 * d)
}

/// Linear interpolation within band `i` at concentration `c`, in thousandths.
#[verifier::opaque]
pub open spec fn band_value(t: Seq<Breakpoint>, i: int, c: int) -> int {
    let lo = lower_at(t, i);
    t[i].aqi_low * AQI_SCALE + round_div(
        (t[i].aqi_high - t[i].aqi_low) * AQI_SCALE * (c - lo),
        t[i].conc_high - lo,
    )
}

/// The index of `c` found by scanning the table from band `i` for the first
/// band whose end reaches `c`; `None` when no band does.
pub open spec fn aqi_from(t: Seq<Breakpoint>, i: int, c: int) -> Option<int>
    decreases t.len() - i,
{
    if i < 0 || i >= t.len() {
        None
    } else if c <= t[i].conc_high {
        Some(band_value(t, i, c))
    } else {
        aqi_from(t, i + 1, c)
    }
}

/// The index of concentration `c` under table `t`.
pub open spec fn aqi_of(t: Seq<Breakpoint>, c: int) -> Option<int> {
    aqi_from(t, 0, c)
}

/// Band `i` has positive width and an index that does not fall across it.
pub open spec fn band_shape(t: Seq<Breakpoint>, i: int) -> bool {
    &&& t[i].aqi_low <= t[i].aqi_high
    &&& lower_at(t, i) < t[i].conc_high
}

/// Every band of the table has positive width and a non-falling index; the
/// band ends therefore rise along the table.
pub open spec fn bands_valid(t: Seq<Breakpoint>) -> bool {
    forall|i: int| 0 <= i < t.len() ==> #[trigger] band_shape(t, i)
}

/// Band `i` has the shape above and does not start below the index at which
/// the previous band ended.
pub open spec fn band_ok(t: Seq<Breakpoint>, i: int) -> bool {
    &&& band_shape(t, i)
    &&& i > 0 ==> band_value(t, i, t[i - 1].conc_high + 1) >= t[i - 1].aqi_high * AQI_SCALE
}

/// A table over which the index is monotone: not empty, and every band well
/// formed.
pub open spec fn table_wf(t: Seq<Breakpoint>) -> bool {
    &&& t.len() >= 1
    &&& forall|i: int| 0 <= i < t.len() ==> #[trigger] band_ok(t, i)
}

/// The largest concentration that a table covers.
pub open spec fn top_of(t: Seq<Breakpoint>) -> int {
    t[t.len() - 1].conc_high as int
}

/// An index computed in machine integers, read as a mathematical one.
pub open spec fn widen(r: Option<i64>) -> Option<int> {
    match r {
        Some(v) => Some(v as int),
        None => None,
    }
}

/// The PM2.5 bands: ends in hundredths of µg/m³ and their index range.
pub open spec fn pm25_table_spec() -> Seq<Breakpoint> {
    seq![
        Breakpoint { conc_high: 1200, aqi_low: 0, aqi_high: 50 },
        Breakpoint { conc_high: 3540, aqi_low: 51, aqi_high: 100 },
        Breakpoint { conc_high: 5540, aqi_low: 101, aqi_high: 150 },
        Breakpoint { conc_high: 15040, aqi_low: 151, aqi_high: 200 },
        Breakpoint { conc_high: 25040, aqi_low: 201, aqi_high: 300 },
        Breakpoint { conc_high: 50040, aqi_low: 301, aqi_high: 500 },
    ]
}

/// The PM10 bands: ends in hundredths of µg/m³ and their index range.
pub open spec fn pm10_table_spec() -> Seq<Breakpoint> {
    seq![
        Breakpoint { conc_high: 5400, aqi_low: 0, aqi_high: 50 },
        Breakpoint { conc_high: 15400, aqi_low: 51, aqi_high: 100 },
        Breakpoint { conc_high: 25400, aqi_low: 101, aqi_high: 150 },
        Breakpoint { conc_high: 35400, aqi_low: 151, aqi_high: 200 },
        Breakpoint { conc_high: 60400, aqi_low: 201, aqi_high: 300 },
    ]
}

/// Regionally corrected concentration, in hundredths, of a reading of
/// `tenths` tenths: half the reading less 0.66 µg/m³.
pub open spec fn corrected(tenths: int) -> int {
    tenths * 5 - 66
}

/// A well-formed table has valid bands.
proof fn lemma_wf_bands_valid(t: Seq<Breakpoint>)
    requires
        table_wf(t),
    ensures
        bands_valid(t),
{
    assert forall|i: int| 0 <= i < t.len() implies #[trigger] band_shape(t, i) by {
        assert(band_ok(t, i));
    }
}

/// Band ends rise along the table.
proof fn lemma_highs_sorted(t: Seq<Breakpoint>, i: int, j: int)
    requires
        bands_valid(t),
        0 <= i <= j < t.len(),
    ensures
        t[i].conc_high <= t[j].conc_high,
    decreases j - i,
{
    if i < j {
        lemma_highs_sorted(t, i, j - 1);
        assert(band_shape(t, j));
    }
}

/// Floor division for a positive divisor.
fn div_floor(n: i64, d: i64) -> (q: i64)
    requires
        0 < d < 0x4000_0000_0000_0000,
        -0x4000_0000_0000_0000 < n,
    ensures
        q == n / d,
        n >= 0 ==> 0 <= q <= n,
        n < 0 ==> n <= q < 0,
{
    if n >= 0 {
        proof {
            lemma_fundamental_div_mod(n as int, d as int);
            let q = n / d;
            let r = n % d;
            assert(q <= n) by (nonlinear_arith)
                requires
                    n == d * q + r,
                    n >= 0,
                    d >= 1,
                    0 <= r < d,
            ;
        }
        ((n as u64) / (d as u64)) as i64
    } else {
        let p: u64 = (-n) as u64;
        let k: u64 = (p + (d as u64) - 1) / (d as u64);
        proof {
            let x = p + d - 1;
            lemma_fundamental_div_mod(x as int, d as int);
            let r = x % (d as int);
            assert(k == x / (d as int));
            assert(0 <= r);
            assert(1 <= k <= p) by (nonlinear_arith)
                requires
                    x == d * k + r,
                    x == p + d - 1,
                    d >= 1,
                    p >= 1,
                    0 <= r < d,
                    k >= 0,
            ;
            assert(n == (-(k as int)) * d + (d - 1 - r)) by (nonlinear_arith)
                requires
                    x == d * k + r,
                    x == p + d - 1,
                    n == -p,
            ;
            lemma_fundamental_div_mod_converse(n as int, d as int, -(k as int), d - 1 - r);
        }
        -(k as i64)
    }
}

/// Interpolates within the band `entry` whose lower bound is `conc_lo`.
fn interpolate(entry: Breakpoint, conc_lo: i64, conc: i32) -> (r: i64)
    requires
        entry.aqi_low <= entry.aqi_high,
        conc_lo < entry.conc_high,
        i32::MIN <= conc_lo <= i32::MAX + BAND_STEP,
    ensures
        r == entry.aqi_low * AQI_SCALE + round_div(
            (entry.aqi_high - entry.aqi_low) * AQI_SCALE * (conc - conc_lo),
            entry.conc_high - conc_lo,
        ),
{
    let rise: i64 = (entry.aqi_high - entry.aqi_low) as i64 * AQI_SCALE;
    let run: i64 = conc as i64 - conc_lo;
    let width: i64 = entry.conc_high as i64 - conc_lo;
    assert(-0x0800_0000_0000_0000 < rise * run < 0x0800_0000_0000_0000) by (nonlinear_arith)
        requires
            0 <= rise <= 65535 * 1000,
            -0x2_0000_0000 < run < 0x2_0000_0000,
    ;
    let n: i64 = rise * run;
    let q = div_floor(2 * n + width, 2 * width);
    entry.aqi_low as i64 * AQI_SCALE + q
}

/// The index of `conc` (hundredths of µg/m³) under `table`, in thousandths of
/// a point: interpolated in the first band whose end reaches `conc`, or `None`
/// when `conc` lies above the table's last band.
pub fn aqi(table: &[Breakpoint], conc: i32) -> (r: Option<i64>)
    requires
        bands_valid(table@),
    ensures
        widen(r) == aqi_of(table@, conc as int),
        r.is_none() <==> table@.len() == 0 || conc > top_of(table@),
{
    let mut conc_lo: i64 = 0;
    let mut i: usize = 0;
    while i < table.len()
        invariant
            bands_valid(table@),
            0 <= i <= table@.len(),
            conc_lo == lower_at(table@, i as int),
            aqi_from(table@, i as int, conc as int) == aqi_of(table@, conc as int),
            forall|j: int| 0 <= j < i ==> conc > #[trigger] table@[j].conc_high,
        decreases table.len() - i,
    {
        let entry = table[i];
        if conc <= entry.conc_high {
            assert(table@[i as int] == entry);
            assert(band_shape(table@, i as int));
            proof {
                reveal(band_value);
                lemma_highs_sorted(table@, i as int, table@.len() - 1);
            }
            return Some(interpolate(entry, conc_lo, conc));
        }
        assert(band_shape(table@, i as int));
        conc_lo = entry.conc_high as i64 + BAND_STEP;
        i = i + 1;
    }
    None
}

/// A rounded quotient is at least `m` when the numerator reaches `m` times
/// the divisor.
proof fn lemma_round_div_at_least(n: int, d: int, m: int)
    requires
        d > 0,
        2 * n + d >= m * (2 * d),
    ensures
        round_div(n, d) >= m,
{
    lemma_div_is_ordered(m * (2 * d), 2 * n + d, 2 * d);
    vstd::arithmetic::div_mod::lemma_div_multiples_vanish(m, 2 * d);
}

/// Band `i` (not the first) of a table, whose fields and those of the band
/// before it are given, is well formed when its index starts one point above
/// the previous band's end and its slope is small enough that one step below
/// its start still lies above that end.
proof fn lemma_band_ok(
    t: Seq<Breakpoint>,
    i: int,
    prev_high: int,
    prev_aqi: int,
    high: int,
    aqi_low: int,
    aqi_high: int,
)
    requires
        1 <= i < t.len(),
        t[i - 1].conc_high == prev_high,
        t[i - 1].aqi_high == prev_aqi,
        t[i].conc_high == high,
        t[i].aqi_low == aqi_low,
        t[i].aqi_high == aqi_high,
        aqi_low <= aqi_high,
        prev_high + BAND_STEP < high,
        prev_aqi + 1 == aqi_low,
        2001 * (high - prev_high - 10) >= 18000 * (aqi_high - aqi_low),
    ensures
        band_ok(t, i),
{
    reveal(band_value);
    let lo = lower_at(t, i);
    assert(2 * ((aqi_high - aqi_low) * AQI_SCALE * (prev_high + 1 - lo)) + (high - lo) >= (prev_aqi
        - aqi_low) * AQI_SCALE * (2 * (high - lo))) by (nonlinear_arith)
        requires
            lo == prev_high + 10,
            prev_aqi + 1 == aqi_low,
            2001 * (high - prev_high - 10) >= 18000 * (aqi_high - aqi_low),
    ;
    lemma_round_div_at_least(
        (t[i].aqi_high - t[i].aqi_low) * AQI_SCALE * (t[i - 1].conc_high + 1 - lo),
        t[i].conc_high - lo,
        (t[i - 1].aqi_high - t[i].aqi_low) * AQI_SCALE,
    );
}

/// The PM2.5 and PM10 tables are well formed, so the monotonicity and
/// continuity laws below hold of them.
pub proof fn lemma_tables_wf()
    ensures
        table_wf(pm25_table_spec()),
        table_wf(pm10_table_spec()),
{
    let t = pm25_table_spec();
    assert(band_ok(t, 0));
    lemma_band_ok(t, 1, 1200, 50, 3540, 51, 100);
    lemma_band_ok(t, 2, 3540, 100, 5540, 101, 150);
    lemma_band_ok(t, 3, 5540, 150, 15040, 151, 200);
    lemma_band_ok(t, 4, 15040, 200, 25040, 201, 300);
    lemma_band_ok(t, 5, 25040, 300, 50040, 301, 500);
    assert forall|i: int| 0 <= i < t.len() implies #[trigger] band_ok(t, i) by {
        assert(i == 0 || i == 1 || i == 2 || i == 3 || i == 4 || i == 5);
    }
    let u = pm10_table_spec();
    assert(band_ok(u, 0));
    lemma_band_ok(u, 1, 5400, 50, 15400, 51, 100);
    lemma_band_ok(u, 2, 15400, 100, 25400, 101, 150);
    lemma_band_ok(u, 3, 25400, 150, 35400, 151, 200);
    lemma_band_ok(u, 4, 35400, 200, 60400, 201, 300);
    assert forall|i: int| 0 <= i < u.len() implies #[trigger] band_ok(u, i) by {
        assert(i == 0 || i == 1 || i == 2 || i == 3 || i == 4);
    }
}

fn band(conc_high: i32, aqi_low: u16, aqi_high: u16) -> (b: Breakpoint)
    ensures
        b == (Breakpoint { conc_high, aqi_low, aqi_high }),
{
    Breakpoint { conc_high, aqi_low, aqi_high }
}

/// The PM2.5 breakpoint table.
pub fn pm25_table() -> (t: Vec<Breakpoint>)
    ensures
        t@ == pm25_table_spec(),
        table_wf(t@),
        bands_valid(t@),
{
    let mut t: Vec<Breakpoint> = Vec::new();
    t.push(band(1200, 0, 50));
    t.push(band(3540, 51, 100));
    t.push(band(5540, 101, 150));
    t.push(band(15040, 151, 200));
    t.push(band(25040, 201, 300));
    t.push(band(50040, 301, 500));
    assert(t@ =~= pm25_table_spec());
    proof {
        lemma_tables_wf();
        lemma_wf_bands_valid(t@);
    }
    t
}

/// The PM10 breakpoint table.
pub fn pm10_table() -> (t: Vec<Breakpoint>)
    ensures
        t@ == pm10_table_spec(),
        table_wf(t@),
        bands_valid(t@),
{
    let mut t: Vec<Breakpoint> = Vec::new();
    t.push(band(5400, 0, 50));
    t.push(band(15400, 51, 100));
    t.push(band(25400, 101, 150));
    t.push(band(35400, 151, 200));
    t.push(band(60400, 201, 300));
    assert(t@ =~= pm10_table_spec());
    proof {
        lemma_tables_wf();
        lemma_wf_bands_valid(t@);
    }
    t
}

/// Regional correction of a PM2.5 reading of `tenths` tenths of µg/m³: half
/// the concentration less 0.66 µg/m³, returned in hundredths of µg/m³.
pub fn regional_correction(tenths: u16) -> (r: i32)
    ensures
        r == corrected(tenths as int),
{
    tenths as i32 * 5 - 66
}

/// A sensor reading of `tenths` tenths of µg/m³, in hundredths.
pub fn tenths_to_hundredths(tenths: u16) -> (r: i32)
    ensures
        r == tenths * 10,
{
    tenths as i32 * 10
}

/// The value shown for an index: the index itself, or the off-scale marker.
pub fn aqi_or_off_scale(a: Option<i64>) -> (r: i64)
    ensures
        r == match a {
            Some(v) => v,
            None => OFF_SCALE,
        },
{
    match a {
        Some(v) => v,
        None => OFF_SCALE,
    }
}

proof fn lemma_round_div_mono(n1: int, n2: int, d: int)
    requires
        d > 0,
        n1 <= n2,
    ensures
        round_div(n1, d) <= round_div(n2, d),
{
    lemma_div_is_ordered(2 * n1 + d, 2 * n2 + d, 2 * d);
}

proof fn lemma_round_div_exact(k: int, d: int)
    requires
        d > 0,
    ensures
        round_div(k * d, d) == k,
{
    assert(2 * (k * d) + d == k * (2 * d) + d) by (nonlinear_arith);
    lemma_fundamental_div_mod_converse(2 * (k * d) + d, 2 * d, k, d);
}

/// Within one band the interpolation does not fall as the concentration rises.
proof fn lemma_band_value_mono(t: Seq<Breakpoint>, i: int, c1: int, c2: int)
    requires
        table_wf(t),
        0 <= i < t.len(),
        c1 <= c2,
    ensures
        band_value(t, i, c1) <= band_value(t, i, c2),
{
    reveal(band_value);
    assert(band_ok(t, i));
    let lo = lower_at(t, i);
    let rise = (t[i].aqi_high - t[i].aqi_low) * AQI_SCALE;
    assert(rise * (c1 - lo) <= rise * (c2 - lo)) by (nonlinear_arith)
        requires
            rise >= 0,
            c1 <= c2,
    ;
    lemma_round_div_mono(rise * (c1 - lo), rise * (c2 - lo), t[i].conc_high - lo);
}

/// A band's interpolation gives its low index at its lower bound and its high
/// index at its end.
proof fn lemma_band_value_ends(t: Seq<Breakpoint>, i: int)
    requires
        table_wf(t),
        0 <= i < t.len(),
    ensures
        band_value(t, i, lower_at(t, i)) == t[i].aqi_low * AQI_SCALE,
        band_value(t, i, t[i].conc_high as int) == t[i].aqi_high * AQI_SCALE,
{
    reveal(band_value);
    assert(band_ok(t, i));
    let lo = lower_at(t, i);
    let d = t[i].conc_high - lo;
    let rise = (t[i].aqi_high - t[i].aqi_low) * AQI_SCALE;
    lemma_round_div_exact(0, d);
    assert(rise * (lo - lo) == 0 * d);
    lemma_round_div_exact(rise, d);
}

/// Scanning from band `j` reaches the same answer as from band `i` when `c`
/// lies above every band from `j` up to `i`.
proof fn lemma_skip_bands(t: Seq<Breakpoint>, j: int, i: int, c: int)
    requires
        table_wf(t),
        0 <= j <= i < t.len(),
        i == 0 || c > t[i - 1].conc_high,
    ensures
        aqi_from(t, j, c) == aqi_from(t, i, c),
    decreases i - j,
{
    if j < i {
        lemma_wf_bands_valid(t);
        lemma_highs_sorted(t, j, i - 1);
        lemma_skip_bands(t, j + 1, i, c);
    }
}

/// A concentration that lies in band `i` gets that band's interpolation.
proof fn lemma_aqi_in_band(t: Seq<Breakpoint>, i: int, c: int)
    requires
        table_wf(t),
        0 <= i < t.len(),
        i == 0 || c > t[i - 1].conc_high,
        c <= t[i].conc_high,
    ensures
        aqi_of(t, c) == Some(band_value(t, i, c)),
{
    lemma_skip_bands(t, 0, i, c);
}

proof fn lemma_mono_from(t: Seq<Breakpoint>, i: int, c1: int, c2: int)
    requires
        table_wf(t),
        0 <= i < t.len(),
        c1 <= c2 <= top_of(t),
        i == 0 || c1 > t[i - 1].conc_high,
    ensures
        aqi_from(t, i, c1) is Some,
        aqi_from(t, i, c2) is Some,
        aqi_from(t, i, c1)->0 <= aqi_from(t, i, c2)->0,
    decreases t.len() - i,
{
    if c2 <= t[i].conc_high {
        lemma_band_value_mono(t, i, c1, c2);
    } else {
        let hi = t[i].conc_high as int;
        assert(i + 1 < t.len());
        assert(band_ok(t, i + 1));
        if c1 <= hi {
            lemma_band_value_mono(t, i, c1, hi);
            lemma_band_value_ends(t, i);
            lemma_mono_from(t, i + 1, hi + 1, c2);
        } else {
            lemma_mono_from(t, i + 1, c1, c2);
        }
    }
}

/// Over the range that a well-formed table covers, the index is defined and
/// never falls as the concentration rises.
pub proof fn lemma_aqi_monotone(t: Seq<Breakpoint>, c1: int, c2: int)
    requires
        table_wf(t),
        c1 <= c2 <= top_of(t),
    ensures
        aqi_of(t, c1) is Some,
        aqi_of(t, c2) is Some,
        aqi_of(t, c1)->0 <= aqi_of(t, c2)->0,
{
    lemma_mono_from(t, 0, c1, c2);
}

/// The index is continuous at the band boundaries: at a band's end it is the
/// band's high index, and at the next band's lower bound (one tenth above) it
/// is that band's low index; the first band starts at its low index at zero.
pub proof fn lemma_aqi_band_ends(t: Seq<Breakpoint>, i: int)
    requires
        table_wf(t),
        0 <= i < t.len(),
    ensures
        aqi_of(t, t[i].conc_high as int) == Some(t[i].aqi_high * AQI_SCALE),
        aqi_of(t, lower_at(t, i)) == Some(t[i].aqi_low * AQI_SCALE),
        i + 1 < t.len() ==> aqi_of(t, t[i].conc_high + BAND_STEP) == Some(
            t[i + 1].aqi_low * AQI_SCALE,
        ),
        aqi_of(t, 0) == Some(t[0].aqi_low * AQI_SCALE),
{
    assert(band_ok(t, i));
    lemma_band_value_ends(t, i);
    lemma_aqi_in_band(t, i, t[i].conc_high as int);
    lemma_aqi_in_band(t, i, lower_at(t, i));
    assert(band_ok(t, 0));
    lemma_band_value_ends(t, 0);
    lemma_aqi_in_band(t, 0, 0);
    if i + 1 < t.len() {
        assert(band_ok(t, i + 1));
        lemma_band_value_ends(t, i + 1);
        lemma_aqi_in_band(t, i + 1, lower_at(t, i + 1));
    }
}

} // verus!
