use weather_mail::analyse::narrate::{weather_to_description, weather_to_description_span};
use weather_mail::models::{HourlyWeather, QWeatherResponse};

fn empty_response() -> QWeatherResponse {
    QWeatherResponse {
        code: "200".to_string(),
        update_time: None,
        hourly: Vec::new(),
    }
}

fn full_reading() -> HourlyWeather {
    HourlyWeather {
        fx_time: "2024-06-01T09:00+08:00".to_string(),
        temp: "20".to_string(),
        text: "Sunny".to_string(),
        icon: Some("100".to_string()),
        wind_dir: Some("NE".to_string()),
        wind_360: Some("45".to_string()),
        wind_scale: Some("3".to_string()),
        wind_speed: Some("12".to_string()),
        humidity: Some("80".to_string()),
        pop: Some("20".to_string()),
        precip: Some("0.0".to_string()),
        pressure: Some("1013".to_string()),
        cloud: Some("25".to_string()),
    }
}

fn bare_reading(fx_time: &str, temp: &str, text: &str) -> HourlyWeather {
    HourlyWeather {
        fx_time: fx_time.to_string(),
        temp: temp.to_string(),
        text: text.to_string(),
        icon: None,
        wind_dir: None,
        wind_360: None,
        wind_scale: None,
        wind_speed: None,
        humidity: None,
        pop: None,
        precip: None,
        pressure: None,
        cloud: None,
    }
}

#[test]
fn empty_series_keeps_only_the_trend_section() {
    let desc = weather_to_description(&empty_response());
    assert_eq!(desc, "\n=== Next 8 Hours ===\n\n");
}

#[test]
fn full_two_reading_narrative_is_exact() {
    let data = QWeatherResponse {
        code: "200".to_string(),
        update_time: None,
        hourly: vec![full_reading(), bare_reading("2024-06-01T10:00+08:00", "22", "Cloudy")],
    };
    let desc = weather_to_description(&data);
    let expected = "=== Current Conditions ===\n\
        Condition: Sunny\n\
        Temperature: 20°C\n\
        Humidity: 80%\n\
        Wind: NE (45°)\n\
        Wind scale: 3\n\
        Wind speed: 12 km/h\n\
        Precipitation probability: 20%\n\
        Precipitation: 0.0 mm\n\
        Pressure: 1013 hPa\n\
        Cloud cover: 25%\n\n\
        === Temperature Summary ===\n\
        High: 22°C\n\
        Low: 20°C\n\
        Average: 21.0°C\n\
        Range: 2°C\n\n\
        Average humidity: 80%\n\n\
        === Precipitation ===\n\
        Total precipitation: 0.0 mm\n\
        Max precipitation probability: 20%\n\n\
        === Next 8 Hours ===\n\
        09: Sunny 20°C\n\
        10: Cloudy 22°C\n";
    assert_eq!(desc, expected);
}

#[test]
fn absent_optional_fields_render_as_placeholders() {
    let data = QWeatherResponse {
        code: "200".to_string(),
        update_time: None,
        hourly: vec![bare_reading("2024-06-01T09:00+08:00", "20", "Sunny")],
    };
    let desc = weather_to_description(&data);
    assert!(desc.contains("Humidity: unknown%\n"));
    assert!(desc.contains("Wind: unknown (unknown°)\n"));
    assert!(desc.contains("Precipitation: unknown mm\n"));
    // no humidity and no precipitation sections without decodable values
    assert!(!desc.contains("Average humidity"));
    assert!(!desc.contains("=== Precipitation ==="));
}

#[test]
fn unparsable_temperatures_are_skipped_not_fatal() {
    let data = QWeatherResponse {
        code: "200".to_string(),
        update_time: None,
        hourly: vec![
            bare_reading("2024-06-01T09:00+08:00", "??", "Sunny"),
            bare_reading("2024-06-01T10:00+08:00", "22", "Cloudy"),
        ],
    };
    let desc = weather_to_description(&data);
    assert!(desc.contains("High: 22°C\n"));
    assert!(desc.contains("Low: 22°C\n"));
}

#[test]
fn trend_covers_at_most_eight_readings() {
    let mut hourly = Vec::new();
    for h in 0..12 {
        let ts = format!("2024-06-01T{:02}:00+08:00", h);
        hourly.push(bare_reading(&ts, "20", "Sunny"));
    }
    let data = QWeatherResponse { code: "200".to_string(), update_time: None, hourly };
    let desc = weather_to_description(&data);
    assert!(desc.contains("07: Sunny 20°C"));
    assert!(!desc.contains("08: Sunny 20°C"));
}

#[test]
fn trend_span_is_configurable() {
    let mut hourly = Vec::new();
    for h in 0..6 {
        let ts = format!("2024-06-01T{:02}:00+08:00", h);
        hourly.push(bare_reading(&ts, "20", "Sunny"));
    }
    let data = QWeatherResponse { code: "200".to_string(), update_time: None, hourly };
    let desc = weather_to_description_span(&data, 3);
    assert!(desc.contains("02: Sunny 20°C"));
    assert!(!desc.contains("03: Sunny 20°C"));
}

#[test]
fn malformed_timestamp_gets_an_hour_placeholder() {
    let data = QWeatherResponse {
        code: "200".to_string(),
        update_time: None,
        hourly: vec![bare_reading("no-time-here", "20", "Sunny")],
    };
    let desc = weather_to_description(&data);
    assert!(desc.contains("--: Sunny 20°C"));
}

#[test]
fn precipitation_section_appears_when_total_is_positive() {
    let mut r = bare_reading("2024-06-01T09:00+08:00", "20", "Rain");
    r.precip = Some("1.5".to_string());
    let data = QWeatherResponse { code: "200".to_string(), update_time: None, hourly: vec![r] };
    let desc = weather_to_description(&data);
    assert!(desc.contains("=== Precipitation ===\n"));
    assert!(desc.contains("Total precipitation: 1.5 mm\n"));
    assert!(desc.contains("Max precipitation probability: 0%\n"));
}
