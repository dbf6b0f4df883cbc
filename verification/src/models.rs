//! Wire model of the hourly forecast feed.
//!
//! All numeric fields arrive as decimal text and stay textual here; the
//! analysis code decodes them with the fixed-point parser.  The boundary
//! that does the HTTP fetch decodes its JSON into these types.

use vstd::prelude::*;

verus! {

/// One forecast data point for a specific hour.
#[derive(Debug)]
pub struct HourlyWeather {
    /// Forecast timestamp, ISO-8601 with offset (`"2025-12-16T12:00+08:00"`).
    pub fx_time: String,
    /// Temperature in degrees, decimal text.
    pub temp: String,
    /// Condition text ("sunny").
    pub text: String,
    /// Condition icon identifier.
    pub icon: Option<String>,
    /// Wind direction name.
    pub wind_dir: Option<String>,
    /// Wind direction in degrees, decimal text.
    pub wind_360: Option<String>,
    /// Wind force scale, decimal text.
    pub wind_scale: Option<String>,
    /// Wind speed in km/h, decimal text.
    pub wind_speed: Option<String>,
    /// Relative humidity percentage, decimal text.
    pub humidity: Option<String>,
    /// Precipitation probability percentage, decimal text.
    pub pop: Option<String>,
    /// Precipitation amount in mm, decimal text.
    pub precip: Option<String>,
    /// Pressure in hPa, decimal text.
    pub pressure: Option<String>,
    /// Cloud cover percentage, decimal text.
    pub cloud: Option<String>,
}

/// A forecast response: a status code and the ordered hourly series.
#[derive(Debug)]
pub struct QWeatherResponse {
    /// Provider status code; `"200"` means success.
    pub code: String,
    /// When the forecast was produced, ISO-8601 with offset.
    pub update_time: Option<String>,
    /// Chronologically ordered hourly readings.
    pub hourly: Vec<HourlyWeather>,
}

/// Whether a response may enter the analysis: a success status code and a
/// non-empty reading sequence.
pub open spec fn response_usable(data: &QWeatherResponse) -> bool {
    data.code@ == "200"@ && data.hourly@.len() > 0
}

/// The calendar-date part of an ISO-8601 timestamp: the text before the
/// first 'T', or the whole text when there is none.
pub open spec fn date_part_spec(s: Seq<char>) -> Seq<char> {
    match crate::fixed::find_char(s, 'T') {
        Some(i) => s.take(i),
        None => s,
    }
}

/// Extract the calendar-date part of a timestamp ("2025-12-16T12:26+08:00"
/// gives "2025-12-16").
pub fn date_of_update_time(update_time: &str) -> (r: String)
    ensures
        r@ == date_part_spec(update_time@),
{
    let len = update_time.unicode_len();
    match crate::fixed::find_char_from(update_time, 0, 'T') {
        Some(i) => {
            proof {
                crate::fixed::lemma_find_char_at(update_time@, 'T', i as int);
                assert(update_time@.subrange(0, i as int) =~= update_time@.take(i as int));
            }
            update_time.substring_char(0, i).to_owned()
        },
        None => {
            proof {
                crate::fixed::lemma_find_char_none(update_time@, 'T');
            }
            update_time.to_owned()
        },
    }
}

/// Gate a fetched response before analysis, as the fetch boundary must:
/// a non-success status or an empty series is fatal.  A failed status is
/// an upstream interface failure ([`Io`]); a successful status with no
/// readings is [`EmptyInput`].
///
/// [`Io`]: crate::errors::WeatherError::Io
/// [`EmptyInput`]: crate::errors::WeatherError::EmptyInput
pub fn check_response(data: &QWeatherResponse) -> (r: Result<(), crate::errors::WeatherError>)
    ensures
        r is Ok <==> response_usable(data),
        data.code@ != "200"@ ==> r == Err::<(), _>(crate::errors::WeatherError::Io),
        data.code@ == "200"@ && data.hourly@.len() == 0 ==> r == Err::<(), _>(
            crate::errors::WeatherError::EmptyInput,
        ),
{
    let ok_code = String::from_str("200");
    if !data.code.eq(&ok_code) {
        return Err(crate::errors::WeatherError::Io);
    }
    if data.hourly.len() == 0 {
        return Err(crate::errors::WeatherError::EmptyInput);
    }
    Ok(())
}

} // verus!
