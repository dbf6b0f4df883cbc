//! Daily temperature statistics over an hourly forecast series.
//!
//! The reducer decodes every reading's textual temperature with the
//! fixed-point parser; a single undecodable value is fatal, and so is an
//! empty series.  The mean is the floor of the arithmetic mean in
//! hundredths, which keeps it between the minimum and the maximum.

pub mod dsanal;
pub mod local;
pub mod narrate;

use vstd::prelude::*;

use crate::errors::WeatherError;
use crate::fixed::{fixed_ok, parse_fixed, parse_fixed_spec, MAX_FIXED};
use crate::models::{HourlyWeather, QWeatherResponse};

verus! {

/// Daily summary statistics, in hundredths of a degree.
#[derive(Clone, Copy, PartialEq, Eq, Structural, Debug)]
pub struct AnalyseReport {
    pub mean_temp: i64,
    pub max_temp: i64,
    pub min_temp: i64,
    pub range_temp: i64,
}

/// The fixed-point value of one reading's temperature field.
pub open spec fn temp_of(h: HourlyWeather) -> Option<int> {
    parse_fixed_spec(h.temp@)
}

/// Whether every reading's temperature decodes.
pub open spec fn all_temps_parse(s: Seq<HourlyWeather>) -> bool {
    forall|i: int| 0 <= i < s.len() ==> (#[trigger] temp_of(s[i])) is Some
}

/// Sum of the decoded temperatures.
pub open spec fn sum_temps(s: Seq<HourlyWeather>) -> int
    decreases s.len(),
{
    if s.len() == 0 {
        0
    } else {
        sum_temps(s.drop_last()) + temp_of(s.last())->Some_0
    }
}

/// Largest decoded temperature of a non-empty series.
pub open spec fn max_temp_spec(s: Seq<HourlyWeather>) -> int
    decreases s.len(),
{
    if s.len() <= 1 {
        temp_of(s[0])->Some_0
    } else {
        let prior = max_temp_spec(s.drop_last());
        let last = temp_of(s.last())->Some_0;
        if last > prior {
            last
        } else {
            prior
        }
    }
}

/// Smallest decoded temperature of a non-empty series.
pub open spec fn min_temp_spec(s: Seq<HourlyWeather>) -> int
    decreases s.len(),
{
    if s.len() <= 1 {
        temp_of(s[0])->Some_0
    } else {
        let prior = min_temp_spec(s.drop_last());
        let last = temp_of(s.last())->Some_0;
        if last < prior {
            last
        } else {
            prior
        }
    }
}

/// The extremes bound every element and the sum.
proof fn lemma_sum_bounds(s: Seq<HourlyWeather>)
    requires
        s.len() >= 1,
    ensures
        s.len() * min_temp_spec(s) <= sum_temps(s) <= s.len() * max_temp_spec(s),
        min_temp_spec(s) <= max_temp_spec(s),
    decreases s.len(),
{
    let n = s.len() as int;
    if s.len() == 1 {
        assert(sum_temps(s.drop_last()) == 0);
    } else {
        let p = s.drop_last();
        lemma_sum_bounds(p);
        let last = temp_of(s.last())->Some_0;
        assert((n - 1) * min_temp_spec(p) <= sum_temps(p) <= (n - 1) * max_temp_spec(p));
        assert((n - 1) * min_temp_spec(s) <= (n - 1) * min_temp_spec(p)) by (nonlinear_arith)
            requires
                n >= 2,
                min_temp_spec(s) <= min_temp_spec(p),
        ;
        assert((n - 1) * max_temp_spec(p) <= (n - 1) * max_temp_spec(s)) by (nonlinear_arith)
            requires
                n >= 2,
                max_temp_spec(p) <= max_temp_spec(s),
        ;
        assert((n - 1) * min_temp_spec(s) + min_temp_spec(s) == n * min_temp_spec(s))
            by (nonlinear_arith);
        assert((n - 1) * max_temp_spec(s) + max_temp_spec(s) == n * max_temp_spec(s))
            by (nonlinear_arith);
    }
}

/// Reduce an hourly series to its daily temperature statistics.
///
/// Fails with [`WeatherError::EmptyInput`] on an empty series and with
/// [`WeatherError::Parse`] as soon as one temperature does not decode; on
/// success the mean lies between the extremes and the range is exactly
/// their difference.
pub fn weather_report(data: &QWeatherResponse) -> (r: Result<AnalyseReport, WeatherError>)
    ensures
        r is Ok <==> data.hourly@.len() > 0 && all_temps_parse(data.hourly@),
        data.hourly@.len() == 0 ==> r == Err::<AnalyseReport, _>(WeatherError::EmptyInput),
        data.hourly@.len() > 0 && !all_temps_parse(data.hourly@) ==> r == Err::<AnalyseReport, _>(
            WeatherError::Parse,
        ),
        r is Ok ==> {
            let rep = r->Ok_0;
            let h = data.hourly@;
            rep.max_temp == max_temp_spec(h) && rep.min_temp == min_temp_spec(h) && rep.mean_temp
                == sum_temps(h) / (h.len() as int) && rep.range_temp == rep.max_temp - rep.min_temp
                && rep.min_temp <= rep.mean_temp <= rep.max_temp && fixed_ok(rep.max_temp as int)
                && fixed_ok(rep.min_temp as int) && fixed_ok(rep.mean_temp as int)
        },
{
    let ghost h = data.hourly@;
    let n = data.hourly.len();
    if n == 0 {
        return Err(WeatherError::EmptyInput);
    }
    let mut mx: i64 = 0;
    let mut mn: i64 = 0;
    let mut sum: i128 = 0;
    let mut i: usize = 0;
    while i < n
        invariant
            n == h.len(),
            0 <= i <= n,
            h == data.hourly@,
            forall|j: int| 0 <= j < i ==> (#[trigger] temp_of(h[j])) is Some,
            i > 0 ==> mx as int == max_temp_spec(h.take(i as int)),
            i > 0 ==> mn as int == min_temp_spec(h.take(i as int)),
            sum as int == sum_temps(h.take(i as int)),
            i > 0 ==> fixed_ok(mx as int) && fixed_ok(mn as int),
            -(i as int) * (MAX_FIXED as int) <= sum as int <= (i as int) * (MAX_FIXED as int),
        decreases n - i,
    {
        let ghost pre = h.take(i as int);
        let t = match parse_fixed(data.hourly[i].temp.as_str()) {
            Some(t) => t,
            None => {
                proof {
                    assert(temp_of(h[i as int]) is None);
                }
                return Err(WeatherError::Parse);
            },
        };
        proof {
            let post = h.take(i + 1);
            assert(post.drop_last() =~= pre);
            assert(post.last() == h[i as int]);
        }
        if i == 0 {
            mx = t;
            mn = t;
        } else {
            if t > mx {
                mx = t;
            }
            if t < mn {
                mn = t;
            }
        }
        sum = sum + (t as i128);
        i = i + 1;
    }
    proof {
        assert(h.take(n as int) =~= h);
        lemma_sum_bounds(h);
    }
    let mean = mean_floor(sum, n, mn, mx);
    Ok(AnalyseReport { mean_temp: mean, max_temp: mx, min_temp: mn, range_temp: mx - mn })
}

/// Floor of `sum / n`, computed by shifting to the non-negative deviation
/// from the minimum so that only unsigned division is needed.
pub(crate) fn mean_floor(sum: i128, n: usize, mn: i64, mx: i64) -> (mean: i64)
    requires
        n > 0,
        fixed_ok(mn as int),
        fixed_ok(mx as int),
        mn <= mx,
        (n as int) * (mn as int) <= sum as int <= (n as int) * (mx as int),
    ensures
        mean as int == (sum as int) / (n as int),
        mn <= mean <= mx,
{
    let ghost nn = n as int;
    proof {
        assert(nn * (mn as int) >= -0x10000000000000000 * 0x3B9ACA00) by (nonlinear_arith)
            requires
                0 < nn <= 0x10000000000000000,
                -0x3B9ACA00 <= mn as int <= 0x3B9ACA00,
        ;
        assert(nn * (mn as int) <= 0x10000000000000000 * 0x3B9ACA00) by (nonlinear_arith)
            requires
                0 < nn <= 0x10000000000000000,
                -0x3B9ACA00 <= mn as int <= 0x3B9ACA00,
        ;
        assert(nn * (mx as int) >= -0x10000000000000000 * 0x3B9ACA00) by (nonlinear_arith)
            requires
                0 < nn <= 0x10000000000000000,
                -0x3B9ACA00 <= mx as int <= 0x3B9ACA00,
        ;
        assert(nn * (mx as int) <= 0x10000000000000000 * 0x3B9ACA00) by (nonlinear_arith)
            requires
                0 < nn <= 0x10000000000000000,
                -0x3B9ACA00 <= mx as int <= 0x3B9ACA00,
        ;
        assert(usize::MAX <= 0xFFFFFFFFFFFFFFFF);
    }
    let dev: i128 = sum - (n as i128) * (mn as i128);
    let devu: u128 = dev as u128;
    let q128: u128 = devu / (n as u128);
    proof {
        assert(devu as int == sum as int - nn * (mn as int));
        assert(nn * (mx as int) - nn * (mn as int) == nn * ((mx - mn) as int))
            by (nonlinear_arith);
        assert(devu as int <= nn * ((mx - mn) as int));
        vstd::arithmetic::div_mod::lemma_div_is_ordered(
            devu as int,
            nn * ((mx - mn) as int),
            nn,
        );
        vstd::arithmetic::div_mod::lemma_div_multiples_vanish((mx - mn) as int, nn);
        assert(nn * ((mx - mn) as int) / nn == (mx - mn) as int);
        vstd::arithmetic::div_mod::lemma_div_pos_is_pos(devu as int, nn);
        assert(0 <= q128 as int <= (mx - mn) as int);
        vstd::arithmetic::div_mod::lemma_fundamental_div_mod(devu as int, nn);
        assert(sum as int == nn * ((mn as int) + (q128 as int)) + (devu as int) % nn)
            by (nonlinear_arith)
            requires
                devu as int == sum as int - nn * (mn as int),
                devu as int == nn * (q128 as int) + (devu as int) % nn,
        ;
        vstd::arithmetic::div_mod::lemma_fundamental_div_mod_converse_div(
            sum as int,
            nn,
            (mn as int) + (q128 as int),
            (devu as int) % nn,
        );
    }
    mn + (q128 as i64)
}

} // verus!
