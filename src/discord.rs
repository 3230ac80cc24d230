use crate::schedule::{hhmm_text, latest_end, earliest_start, DaySchedule, ScheduleRead, Time};
use vstd::prelude::*;
use vstd::string::*;

verus! {

/// Where change notices of plans go.
pub struct Discord {
    pub webhook_url: String,
    /// Public address of the API, for links in notices.
    pub base_url: String,
}

/// How a day's schedule reads in a notice.
pub open spec fn range_text(day: Seq<DaySchedule>) -> Seq<char> {
    if day.len() == 0 {
        "なし"@
    } else {
        hhmm_text(earliest_start(day)@) + " - "@ + hhmm_text(latest_end(day)@)
    }
}

impl Discord {
    pub fn new(webhook_url: String) -> (r: Discord)
        ensures
            r.webhook_url == webhook_url,
            r.base_url@ == "https://api2025.jizi.jp"@,
    {
        Discord { webhook_url, base_url: String::from_str("https://api2025.jizi.jp") }
    }

    pub fn time_to_string(t: &Time) -> (r: String)
        ensures
            r@ == hhmm_text(t@),
    {
        t.to_hhmm()
    }

    /// From the earliest start to the latest end of a day, or none for a day
    /// without ranges.
    pub fn combine_range(day: &Vec<DaySchedule>) -> (r: Option<(Time, Time)>)
        ensures
            day@.len() == 0 ==> r is None,
            day@.len() > 0 ==> r == Some((earliest_start(day@), latest_end(day@))),
    {
        if day.len() == 0 {
            return None;
        }
        let span = ScheduleRead::combine_schedule(day);
        Some((span.start_time, span.end_time))
    }

    /// A day's schedule as `HH:mm - HH:mm`, or `なし` for none.
    pub fn format_range(day: &Vec<DaySchedule>) -> (r: String)
        ensures
            r@ == range_text(day@),
    {
        match Self::combine_range(day) {
            Some((start, end)) => {
                let mut r = Self::time_to_string(&start);
                r.append(" - ");
                r.append(Self::time_to_string(&end).as_str());
                r
            },
            None => String::from_str("なし"),
        }
    }
}

} // verus!
