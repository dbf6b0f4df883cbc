use weather_mail::analyse::dsanal::{build_suggestion_prompt, markdown2html, suggestion_from_reply};
use weather_mail::analyse::local::TemperatureChange;
use weather_mail::analyse::AnalyseReport;
use weather_mail::dates::{fmt_date, parse_date, prev_day, CalendarDate};
use weather_mail::errors::WeatherError;
use weather_mail::mailserv::{build_email_data, format_change};
use weather_mail::models::{check_response, date_of_update_time, HourlyWeather, QWeatherResponse};
use weather_mail::staticconfig::{get_api_config, get_smtp_config, parse_port};
use weather_mail::weather::query_city_location_id;

#[test]
fn city_lookup_knows_the_table() {
    assert_eq!(query_city_location_id("成都"), Some("101270101"));
    assert_eq!(query_city_location_id("北京"), Some("101010100"));
    assert_eq!(query_city_location_id("邗江"), Some("101190606"));
    assert_eq!(query_city_location_id("nowhere"), None);
}

#[test]
fn response_gate_checks_status_and_readings() {
    let empty_ok = QWeatherResponse {
        code: "200".to_string(),
        update_time: None,
        hourly: Vec::new(),
    };
    assert_eq!(check_response(&empty_ok).unwrap_err(), WeatherError::EmptyInput);
    let bad_status = QWeatherResponse {
        code: "404".to_string(),
        update_time: None,
        hourly: Vec::new(),
    };
    assert_eq!(check_response(&bad_status).unwrap_err(), WeatherError::Io);
    let good = QWeatherResponse {
        code: "200".to_string(),
        update_time: None,
        hourly: vec![HourlyWeather {
            fx_time: "2024-06-01T09:00+08:00".to_string(),
            temp: "20".to_string(),
            text: "Sunny".to_string(),
            icon: None,
            wind_dir: None,
            wind_360: None,
            wind_scale: None,
            wind_speed: None,
            humidity: None,
            pop: None,
            precip: None,
            pressure: None,
            cloud: None,
        }],
    };
    assert!(check_response(&good).is_ok());
}

#[test]
fn update_time_yields_its_date_part() {
    assert_eq!(date_of_update_time("2025-12-16T12:26+08:00"), "2025-12-16");
    assert_eq!(date_of_update_time("2025-12-16"), "2025-12-16");
    assert_eq!(date_of_update_time(""), "");
}

#[test]
fn date_parsing_validates_the_calendar() {
    assert_eq!(
        parse_date("2024-06-01"),
        Some(CalendarDate { year: 2024, month: 6, day: 1 })
    );
    assert_eq!(parse_date("2024-13-01"), None);
    assert_eq!(parse_date("2023-02-29"), None);
    assert!(parse_date("2024-02-29").is_some());
    assert_eq!(parse_date("2024-6-1"), None);
    assert_eq!(parse_date("0000-01-01"), None);
    assert_eq!(parse_date("not-a-date"), None);
}

#[test]
fn previous_day_handles_month_and_year_edges() {
    let prev = |y, m, d| prev_day(CalendarDate { year: y, month: m, day: d });
    assert_eq!(prev(2024, 3, 1), Some(CalendarDate { year: 2024, month: 2, day: 29 }));
    assert_eq!(prev(2023, 3, 1), Some(CalendarDate { year: 2023, month: 2, day: 28 }));
    assert_eq!(prev(2024, 1, 1), Some(CalendarDate { year: 2023, month: 12, day: 31 }));
    assert_eq!(prev(2024, 6, 15), Some(CalendarDate { year: 2024, month: 6, day: 14 }));
    assert_eq!(prev(1, 1, 1), None);
}

#[test]
fn date_formatting_pads_with_zeros() {
    assert_eq!(fmt_date(CalendarDate { year: 987, month: 6, day: 1 }), "0987-06-01");
    assert_eq!(fmt_date(CalendarDate { year: 2024, month: 12, day: 31 }), "2024-12-31");
}

#[test]
fn markdown_rendering_goes_through_the_renderer() {
    assert_eq!(markdown2html("**bold**"), "<p><strong>bold</strong></p>\n");
    assert_eq!(
        markdown2html("# Advice\n\n- coat"),
        "<h1>Advice</h1>\n<ul>\n<li>coat</li>\n</ul>\n"
    );
}

#[test]
fn reply_handling_renders_or_fails() {
    let ok = suggestion_from_reply(Some("wear a *light* coat")).unwrap();
    assert_eq!(ok, "<p>wear a <em>light</em> coat</p>\n");
    assert_eq!(suggestion_from_reply(None).unwrap_err(), WeatherError::EmptyInput);
}

#[test]
fn prompt_wraps_the_narrative() {
    let p = build_suggestion_prompt("NARRATIVE");
    assert!(p.starts_with("Given the following detailed weather data"));
    assert!(p.contains("NARRATIVE"));
    assert!(p.ends_with("under 100 words."));
}

#[test]
fn port_parsing_is_exact() {
    assert_eq!(parse_port("587"), Some(587));
    assert_eq!(parse_port("0"), Some(0));
    assert_eq!(parse_port("65535"), Some(65535));
    assert_eq!(parse_port("65536"), None);
    assert_eq!(parse_port(""), None);
    assert_eq!(parse_port("25a"), None);
    assert_eq!(parse_port("123456"), None);
}

#[test]
fn smtp_config_requires_a_valid_port() {
    let ok = get_smtp_config(
        "smtp.example.com".to_string(),
        "587".to_string(),
        "user".to_string(),
        "SECRET-REDACTED".to_string(),
        "bot@example.com".to_string(),
    )
    .unwrap();
    assert_eq!(ok.server, "smtp.example.com");
    assert_eq!(ok.port, 587);
    assert_eq!(ok.from, "bot@example.com");
    let bad = get_smtp_config(
        "smtp.example.com".to_string(),
        "port".to_string(),
        "user".to_string(),
        "SECRET-REDACTED".to_string(),
        "bot@example.com".to_string(),
    );
    assert_eq!(bad.unwrap_err(), WeatherError::Parse);
}

#[test]
fn api_config_keeps_its_keys() {
    let c = get_api_config("qw-key".to_string(), "ds-key".to_string());
    assert_eq!(c.qweather, "qw-key");
    assert_eq!(c.deepseek, "ds-key");
}

#[test]
fn change_formatting_uses_placeholders_when_absent() {
    let (a, b, c) = format_change(&None);
    assert_eq!((a.as_str(), b.as_str(), c.as_str()), ("--", "--", "--"));
    let (a, b, c) = format_change(&Some(TemperatureChange {
        mean_change: 200,
        max_change: -50,
        min_change: 0,
    }));
    assert_eq!((a.as_str(), b.as_str(), c.as_str()), ("+2.0", "-0.5", "+0.0"));
}

#[test]
fn email_data_is_assembled_field_by_field() {
    let first = HourlyWeather {
        fx_time: "2024-06-01T09:00+08:00".to_string(),
        temp: "20".to_string(),
        text: "Sunny".to_string(),
        icon: Some("100".to_string()),
        wind_dir: None,
        wind_360: None,
        wind_scale: None,
        wind_speed: Some("12".to_string()),
        humidity: None,
        pop: None,
        precip: None,
        pressure: None,
        cloud: None,
    };
    let report = AnalyseReport {
        mean_temp: 2100,
        max_temp: 2250,
        min_temp: 2000,
        range_temp: 250,
    };
    let data = build_email_data(
        "2024-06-01".to_string(),
        "成都".to_string(),
        "100".to_string(),
        &first,
        &report,
        "<p>coat</p>".to_string(),
        &None,
    );
    assert_eq!(data.date, "2024-06-01");
    assert_eq!(data.city, "成都");
    assert_eq!(data.weather_desc, "Sunny");
    assert_eq!(data.temp, "20");
    assert_eq!(data.temp_max, "22.5");
    assert_eq!(data.temp_min, "20");
    assert_eq!(data.humidity, "unknown");
    assert_eq!(data.wind_speed, "12");
    assert_eq!(data.suggestion, "<p>coat</p>");
    assert_eq!(data.temp_mean_change, "--");
}
