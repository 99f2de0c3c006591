use entsoe_logger::models::Amount;
use entsoe_logger::tax::{SettingConfig, SettingsConfig, WindowError};

fn pct(hundredths: i64) -> Amount {
    Amount { hundredths }
}

fn window(start: &str, end: Option<&str>, rate: i64) -> SettingConfig {
    SettingConfig::from_text(start, end, pct(rate)).unwrap()
}

fn utc(text: &str) -> i64 {
    entsoe_logger::instant::parse_instant(text, entsoe_logger::instant::LOCAL_SECOND_FORMAT).unwrap()
}

fn schedule() -> SettingsConfig {
    SettingsConfig::new(vec![
        window("2010-01-01T00:00:00", Some("2022-11-30T21:59:59"), 2400),
        window("2022-11-30T22:00:00", Some("2023-04-30T20:59:59"), 1000),
        window("2023-04-30T21:00:00", None, 2400),
    ])
}

#[test]
fn test_load_settings() {
    let settings = schedule();
    assert!(settings.validate().is_ok());
    assert_eq!(settings.get_current_tax_percentage(utc("2019-12-31T22:00:00")), pct(2400));
    assert_eq!(settings.get_current_tax_percentage(utc("2022-11-30T22:00:00")), pct(1000));
    assert_eq!(settings.get_current_tax_percentage(utc("2023-04-30T20:59:59")), pct(1000));
    assert_eq!(settings.get_current_tax_percentage(utc("2023-04-30T21:00:00")), pct(2400));
    assert_eq!(settings.get_current_tax_percentage(utc("2023-05-01T00:00:00")), pct(2400));
}

#[test]
fn window_bounds_are_read_as_utc_seconds() {
    let w = window("2022-11-30T22:00:00", Some("2023-04-30T20:59:59"), 1000);
    assert_eq!(w.start_time, 1669845600);
    assert_eq!(w.end_time, Some(1682888399));
}

#[test]
fn rate_of_the_single_covering_window() {
    let settings = SettingsConfig::new(vec![
        SettingConfig { start_time: 100, end_time: Some(199), tax_percentage: pct(1000) },
        SettingConfig { start_time: 200, end_time: Some(299), tax_percentage: pct(1400) },
    ]);
    assert_eq!(settings.get_current_tax_percentage(150), pct(1000));
    assert_eq!(settings.get_current_tax_percentage(250), pct(1400));
    assert_eq!(settings.get_current_tax_percentage(199), pct(1000));
    assert_eq!(settings.get_setting(250).unwrap().tax_percentage, pct(1400));
}

#[test]
fn default_rate_where_no_window_covers() {
    let settings = SettingsConfig::new(vec![SettingConfig {
        start_time: 100,
        end_time: Some(199),
        tax_percentage: pct(1000),
    }]);
    assert_eq!(settings.get_current_tax_percentage(99), pct(2400));
    assert_eq!(settings.get_current_tax_percentage(200), pct(2400));
    assert!(settings.get_setting(200).is_none());
    let empty = SettingsConfig::new(vec![]);
    assert_eq!(empty.get_current_tax_percentage(0), pct(2400));
}

#[test]
fn default_rate_where_two_windows_cover() {
    let settings = SettingsConfig::new(vec![
        SettingConfig { start_time: 100, end_time: Some(300), tax_percentage: pct(1000) },
        SettingConfig { start_time: 200, end_time: None, tax_percentage: pct(1400) },
    ]);
    assert_eq!(settings.get_current_tax_percentage(250), pct(2400));
    assert!(settings.get_setting(250).is_none());
    assert_eq!(settings.get_current_tax_percentage(150), pct(1000));
    assert_eq!(settings.get_current_tax_percentage(400), pct(1400));
}

#[test]
fn is_match_includes_both_bounds() {
    let w = SettingConfig { start_time: 10, end_time: Some(20), tax_percentage: pct(1) };
    assert!(!w.is_match(9));
    assert!(w.is_match(10));
    assert!(w.is_match(20));
    assert!(!w.is_match(21));
    let open = SettingConfig { start_time: 10, end_time: None, tax_percentage: pct(1) };
    assert!(open.is_match(i64::MAX));
}

#[test]
fn validate_accepts_disjoint_windows_in_any_order() {
    let settings = SettingsConfig::new(vec![
        SettingConfig { start_time: 300, end_time: None, tax_percentage: pct(1) },
        SettingConfig { start_time: 100, end_time: Some(199), tax_percentage: pct(2) },
        SettingConfig { start_time: 200, end_time: Some(299), tax_percentage: pct(3) },
    ]);
    assert!(settings.validate().is_ok());
}

#[test]
fn validate_rejects_end_reaching_next_start() {
    let settings = SettingsConfig::new(vec![
        SettingConfig { start_time: 200, end_time: Some(299), tax_percentage: pct(3) },
        SettingConfig { start_time: 100, end_time: Some(200), tax_percentage: pct(2) },
    ]);
    assert_eq!(settings.validate(), Err("Overlapping contracts detected"));
}

#[test]
fn validate_rejects_open_window_followed_by_another() {
    let settings = SettingsConfig::new(vec![
        SettingConfig { start_time: 100, end_time: None, tax_percentage: pct(2) },
        SettingConfig { start_time: 500, end_time: Some(600), tax_percentage: pct(3) },
    ]);
    assert!(settings.validate().is_err());
}

#[test]
fn validate_accepts_empty_and_single_schedules() {
    assert!(SettingsConfig::new(vec![]).validate().is_ok());
    let one = SettingsConfig::new(vec![SettingConfig {
        start_time: 1,
        end_time: None,
        tax_percentage: pct(2),
    }]);
    assert!(one.validate().is_ok());
}

#[test]
fn window_text_errors() {
    assert_eq!(
        SettingConfig::from_text("not a time", None, pct(1)),
        Err(WindowError::InvalidStartTime)
    );
    assert_eq!(
        SettingConfig::from_text("2023-04-30T21:00:00", Some("2023-04-30"), pct(1)),
        Err(WindowError::InvalidEndTime)
    );
}
