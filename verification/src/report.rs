use vstd::prelude::*;

use crate::sunrise::{SunriseSunset, SunriseSunsetDetails};
use crate::text::{decimal, render_decimal};

verus! {

/// The line reporting one sunrise and its sunset.
pub open spec fn spec_times_line(sunrise: Seq<char>, sunset: Seq<char>) -> Seq<char> {
    "Sunrise: "@ + sunrise + " / Sunset: "@ + sunset
}

/// `Sunrise: <sunrise> / Sunset: <sunset>`.
pub fn times_line(sunrise: &str, sunset: &str) -> (res: String)
    ensures
        res@ == spec_times_line(sunrise@, sunset@),
{
    let mut s = "Sunrise: ".to_owned();
    s.append(sunrise);
    s.append(" / Sunset: ");
    s.append(sunset);
    s
}

/// The text reported for a day of the simple kind, its times already
/// formatted: the sunrise and sunset, or that it is light or night all day.
pub fn day_report(res: &SunriseSunset<String>) -> (out: String)
    ensures
        out@ == match res {
            SunriseSunset::Times { sunrise, sunset } => spec_times_line(sunrise@, sunset@),
            SunriseSunset::LightAllDay => "Light all day!"@,
            SunriseSunset::NightAllDay => "Night all day!"@,
        },
{
    match res {
        SunriseSunset::Times { sunrise, sunset } => times_line(sunrise.as_str(), sunset.as_str()),
        SunriseSunset::LightAllDay => "Light all day!".to_owned(),
        SunriseSunset::NightAllDay => "Night all day!".to_owned(),
    }
}

/// The lines reported for a day of the detailed kind, its times already
/// formatted: the number of sunrises, then one line per sunrise paired with
/// its sunset; or that it is light or night all day.
pub fn detailed_day_report(res: &SunriseSunsetDetails<String>) -> (out: Vec<String>)
    ensures
        match res {
            SunriseSunsetDetails::Times { sunrises, sunsets } => {
                let pairs = if sunrises@.len() < sunsets@.len() {
                    sunrises@.len()
                } else {
                    sunsets@.len()
                };
                &&& out@.len() == pairs + 1
                &&& out@[0]@ == decimal(sunrises@.len()) + " sunrises"@
                &&& forall|k: int|
                    0 <= k < pairs ==> #[trigger] out@[k + 1]@ == spec_times_line(sunrises@[k]@, sunsets@[k]@)
            },
            SunriseSunsetDetails::LightAllDay => out@.len() == 1 && out@[0]@ == "Light all day!"@,
            SunriseSunsetDetails::NightAllDay => out@.len() == 1 && out@[0]@ == "Night all day!"@,
        },
{
    let mut out: Vec<String> = Vec::new();
    match res {
        SunriseSunsetDetails::Times { sunrises, sunsets } => {
            let mut head = render_decimal(sunrises.len());
            head.append(" sunrises");
            out.push(head);
            let pairs = if sunrises.len() < sunsets.len() {
                sunrises.len()
            } else {
                sunsets.len()
            };
            let mut k: usize = 0;
            while k < pairs
                invariant
                    pairs <= sunrises@.len(),
                    pairs <= sunsets@.len(),
                    k <= pairs,
                    out@.len() == k + 1,
                    out@[0]@ == decimal(sunrises@.len() as nat) + " sunrises"@,
                    forall|j: int|
                        0 <= j < k ==> #[trigger] out@[j + 1]@ == spec_times_line(sunrises@[j]@, sunsets@[j]@),
                decreases pairs - k,
            {
                out.push(times_line(sunrises[k].as_str(), sunsets[k].as_str()));
                k = k + 1;
            }
        },
        SunriseSunsetDetails::LightAllDay => {
            out.push("Light all day!".to_owned());
        },
        SunriseSunsetDetails::NightAllDay => {
            out.push("Night all day!".to_owned());
        },
    }
    out
}

/// The header line of the yearly CSV report.
pub fn csv_header() -> (res: String)
    ensures
        res@ == "DAY,SUNRISE,SUNSET"@,
{
    "DAY,SUNRISE,SUNSET".to_owned()
}

/// The CSV line of one day, its date and times already formatted: the day,
/// then its sunrise and sunset, or `NA,NA` when it is light or night all day.
pub fn csv_line(day: &str, res: &SunriseSunset<String>) -> (out: String)
    ensures
        out@ == match res {
            SunriseSunset::Times { sunrise, sunset } => day@ + ","@ + sunrise@ + ","@ + sunset@,
            _ => day@ + ",NA,NA"@,
        },
{
    let mut s = day.to_owned();
    match res {
        SunriseSunset::Times { sunrise, sunset } => {
            s.append(",");
            s.append(sunrise.as_str());
            s.append(",");
            s.append(sunset.as_str());
        },
        _ => {
            s.append(",NA,NA");
        },
    }
    s
}

/// Whether sun positions computed for `year` are accurate: years 1901 to
/// 2099.
pub fn year_is_accurate(year: i32) -> (res: bool)
    ensures
        res == (1901 <= year <= 2099),
{
    1901 <= year && year <= 2099
}

} // verus!
