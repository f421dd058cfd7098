use tppss::cli::split_latlon;
use tppss::report::{csv_header, csv_line, day_report, detailed_day_report, times_line, year_is_accurate};
use tppss::sunrise::samples_per_day;
use tppss::text::{char_is_whitespace, has_prefix, render_decimal, trimmed_substring};
use tppss::{SunriseSunset, SunriseSunsetDetails, TppssError};

#[test]
fn creates_expected_number_of_times() {
    assert_eq!(samples_per_day(60), Ok(1441));
    assert_eq!(samples_per_day(1), Ok(25));
}

#[test]
fn zero_time_precision_is_invalid() {
    assert_eq!(
        samples_per_day(0),
        Err(TppssError::InvalidInput("time precision must be greater than zero".to_string()))
    );
}

#[test]
fn latlon_is_split_on_its_only_comma() {
    assert_eq!(
        split_latlon("45.902351,6.144737"),
        Ok(("45.902351".to_string(), "6.144737".to_string()))
    );
    assert_eq!(split_latlon("  45.9 ,\t6.1\n"), Ok(("45.9".to_string(), "6.1".to_string())));
    assert_eq!(split_latlon(","), Ok((String::new(), String::new())));
}

#[test]
fn latlon_needs_exactly_one_comma() {
    for bad in ["45.9", "45.9,6.1,3", "", ",,"] {
        assert_eq!(
            split_latlon(bad),
            Err(format!("{bad:?} is not a valid Lat Lon (eg '45.235555,5.83890')"))
        );
    }
}

#[test]
fn trim_matches_std() {
    let samples = ["", " ", "a", " a ", "\u{3000}x\u{85}", "\u{200b}x", "\t\n a b \r", "\u{a0}\u{2028}é\u{205f}"];
    for s in samples {
        let n = s.chars().count();
        assert_eq!(trimmed_substring(s, 0, n), s.trim().to_string(), "{s:?}");
    }
    for c in ['\u{0}', ' ', '\t', '\u{b}', '\u{1c}', '\u{85}', '\u{a0}', '\u{180e}', '\u{2007}', '\u{200b}', '\u{feff}', 'x'] {
        assert_eq!(char_is_whitespace(c), c.is_whitespace(), "{c:?}");
    }
}

#[test]
fn prefix_test() {
    assert!(has_prefix("https://x", "https://"));
    assert!(!has_prefix("http", "https://"));
    assert!(has_prefix("abc", ""));
}

#[test]
fn decimal_rendering_matches_std() {
    for n in [0usize, 7, 10, 42, 100, 9999, 123456789, usize::MAX] {
        assert_eq!(render_decimal(n), n.to_string());
    }
}

#[test]
fn day_report_lines() {
    let times = SunriseSunset::Times { sunrise: "08:32".to_string(), sunset: "19:51".to_string() };
    assert_eq!(day_report(&times), "Sunrise: 08:32 / Sunset: 19:51");
    assert_eq!(day_report(&SunriseSunset::<String>::LightAllDay), "Light all day!");
    assert_eq!(day_report(&SunriseSunset::<String>::NightAllDay), "Night all day!");
    assert_eq!(times_line("a", "b"), "Sunrise: a / Sunset: b");
}

#[test]
fn detailed_day_report_lines() {
    let details = SunriseSunsetDetails::Times {
        sunrises: vec!["07:00".to_string(), "13:00".to_string()],
        sunsets: vec!["12:00".to_string(), "18:00".to_string()],
    };
    assert_eq!(
        detailed_day_report(&details),
        vec![
            "2 sunrises".to_string(),
            "Sunrise: 07:00 / Sunset: 12:00".to_string(),
            "Sunrise: 13:00 / Sunset: 18:00".to_string(),
        ]
    );
    assert_eq!(detailed_day_report(&SunriseSunsetDetails::<String>::NightAllDay), vec!["Night all day!".to_string()]);
    assert_eq!(detailed_day_report(&SunriseSunsetDetails::<String>::LightAllDay), vec!["Light all day!".to_string()]);
}

#[test]
fn csv_lines() {
    assert_eq!(csv_header(), "DAY,SUNRISE,SUNSET");
    let times = SunriseSunset::Times { sunrise: "08:32:00+0200".to_string(), sunset: "19:51:00+0200".to_string() };
    assert_eq!(csv_line("2025-09-07", &times), "2025-09-07,08:32:00+0200,19:51:00+0200");
    assert_eq!(csv_line("2026-01-07", &SunriseSunset::<String>::NightAllDay), "2026-01-07,NA,NA");
    assert_eq!(csv_line("2026-06-21", &SunriseSunset::<String>::LightAllDay), "2026-06-21,NA,NA");
}

#[test]
fn accurate_years() {
    assert!(year_is_accurate(1901));
    assert!(year_is_accurate(2025));
    assert!(year_is_accurate(2099));
    assert!(!year_is_accurate(1900));
    assert!(!year_is_accurate(2100));
}
