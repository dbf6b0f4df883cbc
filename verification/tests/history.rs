use weather_mail::analyse::local::{
    count_temperature_change, save_temperature_record, store_from_text, store_to_text,
    HistoryStore, TemperatureRecord,
};
use weather_mail::errors::WeatherError;

fn record(date: &str, mean: i64, max: i64, min: i64, city: &str) -> TemperatureRecord {
    TemperatureRecord {
        date: date.to_string(),
        temp_mean: mean,
        temp_max: max,
        temp_min: min,
        city: city.to_string(),
    }
}

#[test]
fn test_save_temperature_record() {
    let rec = record("2024-06-01", 2500, 3000, 2000, "测试城市");
    let mut store = HistoryStore::new();
    let result = save_temperature_record(&mut store, &rec);
    assert!(result);
    assert_eq!(store.len(), 1);
}

#[test]
fn test_count_temperature_change() {
    let mut store = HistoryStore::new();
    save_temperature_record(&mut store, &record("2024-06-01", 2500, 3000, 2000, "测试城市"));
    let rec = record("2024-06-02", 2600, 3100, 2100, "测试城市");
    let result = count_temperature_change(&mut store, &rec);
    assert!(result.is_ok());
}

#[test]
fn insert_same_key_twice_is_idempotent() {
    let mut store = HistoryStore::new();
    let first = save_temperature_record(&mut store, &record("2024-06-01", 2500, 3000, 2000, "A"));
    let second = save_temperature_record(&mut store, &record("2024-06-01", 2600, 3100, 2100, "A"));
    assert!(first);
    assert!(!second);
    assert_eq!(store.len(), 1);
    // the surviving record is the first one, untouched by the second call
    assert_eq!(store.records[0].temp_mean, 2500);
}

#[test]
fn same_date_other_city_is_a_new_key() {
    let mut store = HistoryStore::new();
    assert!(save_temperature_record(&mut store, &record("2024-06-01", 2500, 3000, 2000, "A")));
    assert!(save_temperature_record(&mut store, &record("2024-06-01", 2500, 3000, 2000, "B")));
    assert_eq!(store.len(), 2);
}

#[test]
fn change_is_exact_fieldwise_subtraction() {
    let mut store = HistoryStore::new();
    save_temperature_record(&mut store, &record("2024-06-01", 2500, 3000, 2000, "A"));
    let result = count_temperature_change(&mut store, &record("2024-06-02", 2600, 3100, 2100, "A"));
    let change = result.unwrap().unwrap();
    assert_eq!(change.mean_change, 100);
    assert_eq!(change.max_change, 100);
    assert_eq!(change.min_change, 100);
    assert_eq!(store.len(), 2);
}

#[test]
fn no_prior_data_even_with_other_records() {
    let mut store = HistoryStore::new();
    save_temperature_record(&mut store, &record("2024-06-01", 2500, 3000, 2000, "OtherCity"));
    save_temperature_record(&mut store, &record("2024-05-30", 2500, 3000, 2000, "A"));
    let result = count_temperature_change(&mut store, &record("2024-06-02", 2600, 3100, 2100, "A"));
    assert!(result.unwrap().is_none());
    assert_eq!(store.len(), 3);
}

#[test]
fn compute_does_not_duplicate_todays_record() {
    let mut store = HistoryStore::new();
    save_temperature_record(&mut store, &record("2024-06-02", 2600, 3100, 2100, "A"));
    let result = count_temperature_change(&mut store, &record("2024-06-02", 2700, 3200, 2200, "A"));
    assert!(result.unwrap().is_none());
    assert_eq!(store.len(), 1);
    assert_eq!(store.records[0].temp_mean, 2600);
}

#[test]
fn invalid_date_is_a_date_arithmetic_error() {
    let mut store = HistoryStore::new();
    let result = count_temperature_change(&mut store, &record("2024-13-01", 2600, 3100, 2100, "A"));
    assert_eq!(result.unwrap_err(), WeatherError::DateArithmetic);
    assert_eq!(store.len(), 0);
}

#[test]
fn first_day_of_calendar_has_no_previous_day() {
    let mut store = HistoryStore::new();
    let result = count_temperature_change(&mut store, &record("0001-01-01", 2600, 3100, 2100, "A"));
    assert_eq!(result.unwrap_err(), WeatherError::DateArithmetic);
}

#[test]
fn round_trip_preserves_all_records() {
    let mut store = HistoryStore::new();
    save_temperature_record(&mut store, &record("2024-06-01", 2500, 3000, 2000, "成都"));
    save_temperature_record(&mut store, &record("2024-06-02", -350, 125, -1000, "成都"));
    save_temperature_record(&mut store, &record("2024-06-02", 1, 2, 0, "北京"));
    let text = store_to_text(&store);
    let reloaded = store_from_text(text.as_str()).unwrap();
    assert_eq!(reloaded.len(), store.len());
    for i in 0..store.records.len() {
        assert_eq!(reloaded.records[i].date, store.records[i].date);
        assert_eq!(reloaded.records[i].city, store.records[i].city);
        assert_eq!(reloaded.records[i].temp_mean, store.records[i].temp_mean);
        assert_eq!(reloaded.records[i].temp_max, store.records[i].temp_max);
        assert_eq!(reloaded.records[i].temp_min, store.records[i].temp_min);
    }
}

#[test]
fn rendered_store_text_is_the_documented_layout() {
    let mut store = HistoryStore::new();
    save_temperature_record(&mut store, &record("2024-06-01", 2500, 3000, 2000, "chengdu"));
    let text = store_to_text(&store);
    assert_eq!(
        text,
        "date,temp_mean,temp_max,temp_min,city\n2024-06-01,25.00,30.00,20.00,chengdu\n"
    );
}

#[test]
fn empty_text_loads_as_empty_store() {
    let store = store_from_text("").unwrap();
    assert_eq!(store.len(), 0);
}

#[test]
fn header_only_text_loads_as_empty_store() {
    let store = store_from_text("date,temp_mean,temp_max,temp_min,city\n").unwrap();
    assert_eq!(store.len(), 0);
}

#[test]
fn malformed_row_is_a_fatal_parse_error() {
    let text = "date,temp_mean,temp_max,temp_min,city\n2024-06-01,notanumber,30.00,20.00,c\n";
    assert_eq!(store_from_text(text).unwrap_err(), WeatherError::Parse);
}

#[test]
fn wrong_header_is_a_fatal_parse_error() {
    let text = "time,mean,max,min,place\n2024-06-01,25.00,30.00,20.00,c\n";
    assert_eq!(store_from_text(text).unwrap_err(), WeatherError::Parse);
}

#[test]
fn duplicate_key_in_file_is_corruption() {
    let text = "date,temp_mean,temp_max,temp_min,city\n\
                2024-06-01,25.00,30.00,20.00,c\n\
                2024-06-01,26.00,31.00,21.00,c\n";
    assert_eq!(store_from_text(text).unwrap_err(), WeatherError::Parse);
}

#[test]
fn unterminated_last_row_is_a_fatal_parse_error() {
    let text = "date,temp_mean,temp_max,temp_min,city\n2024-06-01,25.00,30.00,20.00,c";
    assert_eq!(store_from_text(text).unwrap_err(), WeatherError::Parse);
}

#[test]
fn find_matches_exact_city_and_date() {
    let mut store = HistoryStore::new();
    save_temperature_record(&mut store, &record("2024-06-01", 2500, 3000, 2000, "A"));
    save_temperature_record(&mut store, &record("2024-06-02", 2600, 3100, 2100, "A"));
    let hit = store.find("A", "2024-06-02").unwrap();
    assert_eq!(hit.temp_mean, 2600);
    assert!(store.find("B", "2024-06-02").is_none());
    assert!(store.find("A", "2024-06-03").is_none());
}
