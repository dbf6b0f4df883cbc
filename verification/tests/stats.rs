use weather_mail::analyse::local::{count_temperature_change, HistoryStore, TemperatureRecord};
use weather_mail::analyse::weather_report;
use weather_mail::errors::WeatherError;
use weather_mail::mailserv::format_change;
use weather_mail::models::{HourlyWeather, QWeatherResponse};

fn reading(temp: &str) -> HourlyWeather {
    HourlyWeather {
        fx_time: "2024-06-01T09:00+08:00".to_string(),
        temp: temp.to_string(),
        text: "Sunny".to_string(),
        icon: None,
        wind_dir: None,
        wind_360: None,
        wind_scale: None,
        wind_speed: None,
        humidity: None,
        pop: None,
        precip: None,
        pressure: None,
        cloud: None,
    }
}

fn response(temps: &[&str]) -> QWeatherResponse {
    QWeatherResponse {
        code: "200".to_string(),
        update_time: Some("2024-06-01T08:00+08:00".to_string()),
        hourly: temps.iter().map(|t| reading(t)).collect(),
    }
}

#[test]
fn empty_series_fails_with_empty_input() {
    let result = weather_report(&response(&[]));
    assert_eq!(result.unwrap_err(), WeatherError::EmptyInput);
}

#[test]
fn one_unparsable_temperature_is_fatal() {
    let result = weather_report(&response(&["20", "oops", "22"]));
    assert_eq!(result.unwrap_err(), WeatherError::Parse);
}

#[test]
fn stats_bounds_hold_on_sample_series() {
    let report = weather_report(&response(&["13", "-2.5", "7.25", "0"])).unwrap();
    assert!(report.min_temp <= report.mean_temp);
    assert!(report.mean_temp <= report.max_temp);
    assert_eq!(report.range_temp, report.max_temp - report.min_temp);
    assert_eq!(report.max_temp, 1300);
    assert_eq!(report.min_temp, -250);
}

#[test]
fn single_reading_stats_collapse() {
    let report = weather_report(&response(&["21.5"])).unwrap();
    assert_eq!(report.mean_temp, 2150);
    assert_eq!(report.max_temp, 2150);
    assert_eq!(report.min_temp, 2150);
    assert_eq!(report.range_temp, 0);
}

#[test]
fn end_to_end_two_days_of_history() {
    // 24 hourly readings: three weeks of the 10..22 ramp plus three 16s,
    // summing to 384, so the mean is exactly 16.
    let ramp = ["10", "12", "14", "16", "18", "20", "22"];
    let mut temps: Vec<&str> = Vec::new();
    for _ in 0..3 {
        temps.extend_from_slice(&ramp);
    }
    temps.extend_from_slice(&["16", "16", "16"]);
    assert_eq!(temps.len(), 24);

    let report = weather_report(&response(&temps)).unwrap();
    assert_eq!(report.mean_temp, 1600);
    assert_eq!(report.max_temp, 2200);
    assert_eq!(report.min_temp, 1000);
    assert_eq!(report.range_temp, 1200);

    let mut store = HistoryStore::new();
    let today = TemperatureRecord {
        date: "2024-06-01".to_string(),
        temp_mean: report.mean_temp,
        temp_max: report.max_temp,
        temp_min: report.min_temp,
        city: "成都".to_string(),
    };
    let change = count_temperature_change(&mut store, &today).unwrap();
    assert!(change.is_none());
    assert_eq!(store.len(), 1);

    let next_day = TemperatureRecord {
        date: "2024-06-02".to_string(),
        temp_mean: 1800,
        temp_max: 2200,
        temp_min: 1000,
        city: "成都".to_string(),
    };
    let change = count_temperature_change(&mut store, &next_day).unwrap().unwrap();
    assert_eq!(change.mean_change, 200);
    let (mean_text, _, _) = format_change(&Some(change));
    assert_eq!(mean_text, "+2.0");
}
