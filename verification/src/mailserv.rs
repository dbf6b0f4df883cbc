//! Assembly of the data the notification mail is rendered from.
//!
//! Rendering and delivery (templating, SMTP) are outside collaborators;
//! this module only builds the field set they consume, with every field
//! pinned down -- including the "--" placeholders that stand for an
//! absent day-over-day change.

use vstd::prelude::*;

use crate::analyse::local::TemperatureChange;
use crate::analyse::narrate::opt_text;
use crate::analyse::AnalyseReport;
use crate::fixed::{fmt_fixed_min, fmt_fixed_min_spec, fmt_signed1, fmt_signed1_spec};
use crate::models::HourlyWeather;

verus! {

/// Everything the notification mail template consumes, all textual.
#[derive(Debug)]
pub struct WeatherEmailData {
    pub date: String,
    pub city: String,
    pub icon_base64: String,
    pub weather_desc: String,
    pub temp: String,
    pub temp_max: String,
    pub temp_min: String,
    pub humidity: String,
    pub wind_speed: String,
    pub suggestion: String,
    pub temp_mean_change: String,
    pub temp_max_change: String,
    pub temp_min_change: String,
}

/// The three change fields: signed one-decimal text when a change exists,
/// the "--" placeholder otherwise -- callers must render a placeholder,
/// never omit the field.
pub open spec fn change_text_spec(change: Option<TemperatureChange>) -> (
    Seq<char>,
    Seq<char>,
    Seq<char>,
) {
    match change {
        Some(c) => (
            fmt_signed1_spec(c.mean_change as int),
            fmt_signed1_spec(c.max_change as int),
            fmt_signed1_spec(c.min_change as int),
        ),
        None => ("--"@, "--"@, "--"@),
    }
}

/// Render the day-over-day change fields.
pub fn format_change(change: &Option<TemperatureChange>) -> (r: (String, String, String))
    requires
        change matches Some(c) ==> c.mean_change > i64::MIN && c.max_change > i64::MIN
            && c.min_change > i64::MIN,
    ensures
        (r.0@, r.1@, r.2@) == change_text_spec(*change),
{
    match change {
        Some(c) => (fmt_signed1(c.mean_change), fmt_signed1(c.max_change), fmt_signed1(
            c.min_change,
        )),
        None => (
            String::from_str("--"),
            String::from_str("--"),
            String::from_str("--"),
        ),
    }
}

/// Assemble the mail data from the first reading, the daily statistics,
/// the suggestion text and the day-over-day change.
pub fn build_email_data(
    date: String,
    city: String,
    icon_base64: String,
    first: &HourlyWeather,
    report: &AnalyseReport,
    suggestion: String,
    change: &Option<TemperatureChange>,
) -> (r: WeatherEmailData)
    requires
        report.max_temp > i64::MIN,
        report.min_temp > i64::MIN,
        change matches Some(c) ==> c.mean_change > i64::MIN && c.max_change > i64::MIN
            && c.min_change > i64::MIN,
    ensures
        r.date@ == date@,
        r.city@ == city@,
        r.icon_base64@ == icon_base64@,
        r.weather_desc@ == first.text@,
        r.temp@ == first.temp@,
        r.temp_max@ == fmt_fixed_min_spec(report.max_temp as int),
        r.temp_min@ == fmt_fixed_min_spec(report.min_temp as int),
        r.humidity@ == opt_text(first.humidity, "unknown"@),
        r.wind_speed@ == opt_text(first.wind_speed, "unknown"@),
        r.suggestion@ == suggestion@,
        (r.temp_mean_change@, r.temp_max_change@, r.temp_min_change@) == change_text_spec(*change),
{
    let (mean_change, max_change, min_change) = format_change(change);
    let humidity = match &first.humidity {
        Some(h) => h.clone(),
        None => String::from_str("unknown"),
    };
    let wind_speed = match &first.wind_speed {
        Some(w) => w.clone(),
        None => String::from_str("unknown"),
    };
    WeatherEmailData {
        date,
        city,
        icon_base64,
        weather_desc: first.text.clone(),
        temp: first.temp.clone(),
        temp_max: fmt_fixed_min(report.max_temp),
        temp_min: fmt_fixed_min(report.min_temp),
        humidity,
        wind_speed,
        suggestion,
        temp_mean_change: mean_change,
        temp_max_change: max_change,
        temp_min_change: min_change,
    }
}

} // verus!
