use tppss::sunrise::{sunrise_sunset_details_from_indices, sunrise_sunset_simple, SunriseSunset, SunriseSunsetDetails};

fn minutes() -> Vec<u32> {
    (0..=1440).collect()
}

#[test]
fn no_sample_above_is_night_all_day() {
    let times = minutes();
    assert_eq!(sunrise_sunset_simple(&times, &[]), SunriseSunset::NightAllDay);
    assert_eq!(sunrise_sunset_details_from_indices(&times, &[]), SunriseSunsetDetails::NightAllDay);
}

#[test]
fn every_sample_above_is_light_all_day() {
    let times = minutes();
    let all: Vec<usize> = (0..times.len()).collect();
    assert_eq!(sunrise_sunset_simple(&times, &all), SunriseSunset::LightAllDay);
    assert_eq!(sunrise_sunset_details_from_indices(&times, &all), SunriseSunsetDetails::LightAllDay);
}

#[test]
fn one_period_gives_first_and_last_sample() {
    let times = minutes();
    let above: Vec<usize> = (512..=1191).collect();
    assert_eq!(sunrise_sunset_simple(&times, &above), SunriseSunset::Times { sunrise: 512, sunset: 1191 });
    assert_eq!(
        sunrise_sunset_details_from_indices(&times, &above),
        SunriseSunsetDetails::Times { sunrises: vec![512], sunsets: vec![1191] }
    );
}

#[test]
fn interrupted_day_has_one_period_per_run() {
    let times: Vec<u32> = (0..20).map(|i| 100 + i).collect();
    let above = vec![2, 3, 4, 7, 8, 12, 15, 16, 17];
    assert_eq!(sunrise_sunset_simple(&times, &above), SunriseSunset::Times { sunrise: 102, sunset: 117 });
    assert_eq!(
        sunrise_sunset_details_from_indices(&times, &above),
        SunriseSunsetDetails::Times { sunrises: vec![102, 107, 112, 115], sunsets: vec![104, 108, 112, 117] }
    );
}

#[test]
fn single_sample_above_is_rise_and_set_at_once() {
    let times = minutes();
    assert_eq!(sunrise_sunset_simple(&times, &[700]), SunriseSunset::Times { sunrise: 700, sunset: 700 });
    assert_eq!(
        sunrise_sunset_details_from_indices(&times, &[700]),
        SunriseSunsetDetails::Times { sunrises: vec![700], sunsets: vec![700] }
    );
}

#[test]
fn details_agree_with_simple_answer() {
    let times: Vec<u32> = (0..50).collect();
    let above = vec![1, 2, 10, 11, 12, 30, 49];
    let simple = sunrise_sunset_simple(&times, &above);
    match sunrise_sunset_details_from_indices(&times, &above) {
        SunriseSunsetDetails::Times { sunrises, sunsets } => {
            assert_eq!(sunrises.len(), sunsets.len());
            assert_eq!(simple, SunriseSunset::Times { sunrise: sunrises[0], sunset: *sunsets.last().unwrap() });
            for k in 0..sunrises.len() {
                assert!(sunrises[k] <= sunsets[k]);
                if k + 1 < sunrises.len() {
                    assert!(sunsets[k] + 1 < sunrises[k + 1]);
                }
            }
        }
        other => panic!("unexpected {other:?}"),
    }
}
