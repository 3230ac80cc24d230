use plan_catalog::discord::Discord;
use plan_catalog::schedule::{DaySchedule, ScheduleCreate, ScheduleRead, Time};

fn t(h: u8, m: u8) -> Time {
    Time::new(h, m).unwrap()
}

fn range(a: (u8, u8), b: (u8, u8)) -> DaySchedule {
    DaySchedule { start_time: t(a.0, a.1), end_time: t(b.0, b.1) }
}

fn combined_days(s: &ScheduleRead) -> (Option<DaySchedule>, Option<DaySchedule>) {
    match s {
        ScheduleRead::Combined { day1, day2 } => (*day1, *day2),
        ScheduleRead::NotCombined { .. } => panic!("expected the combined form"),
    }
}

fn canonical_days(s: &ScheduleRead) -> (Vec<DaySchedule>, Vec<DaySchedule>) {
    match s {
        ScheduleRead::NotCombined { day1, day2 } => (day1.clone(), day2.clone()),
        ScheduleRead::Combined { .. } => panic!("expected the canonical form"),
    }
}

#[test]
fn time_new_accepts_only_valid_times() {
    assert_eq!(Time::new(0, 0).unwrap().minutes(), 0);
    assert_eq!(Time::new(23, 59).unwrap().minutes(), 1439);
    assert_eq!(Time::new(9, 30).unwrap().minutes(), 570);
    assert!(Time::new(24, 0).is_none());
    assert!(Time::new(12, 60).is_none());
}

#[test]
fn time_formats_as_hh_mm() {
    assert_eq!(t(9, 5).to_hhmm(), "09:05");
    assert_eq!(t(23, 59).to_hhmm(), "23:59");
    assert_eq!(t(0, 0).to_hhmm(), "00:00");
    assert_eq!(t(13, 40).hour(), 13);
    assert_eq!(t(13, 40).minute(), 40);
}

#[test]
fn combine_spans_each_day() {
    let created = ScheduleCreate {
        day1: vec![range((9, 0), (12, 0)), range((13, 0), (15, 0))],
        day2: vec![],
    };
    let stored: ScheduleRead = ScheduleRead::from(created);
    let (d1, d2) = combined_days(&stored.combine());
    assert_eq!(d1, Some(range((9, 0), (15, 0))));
    assert_eq!(d2, None);
}

#[test]
fn combine_takes_least_start_and_greatest_end_in_any_order() {
    let stored = ScheduleRead::NotCombined {
        day1: vec![range((14, 0), (14, 30)), range((10, 0), (11, 0)), range((12, 0), (18, 0))],
        day2: vec![range((8, 15), (9, 0))],
    };
    let (d1, d2) = combined_days(&stored.combine());
    assert_eq!(d1, Some(range((10, 0), (18, 0))));
    assert_eq!(d2, Some(range((8, 15), (9, 0))));
}

#[test]
fn combine_keeps_a_combined_schedule() {
    let s = ScheduleRead::Combined { day1: Some(range((9, 0), (10, 0))), day2: None };
    assert_eq!(combined_days(&s.combine()), (Some(range((9, 0), (10, 0))), None));
}

#[test]
fn uncombine_makes_lists_of_at_most_one_range() {
    let s = ScheduleRead::Combined { day1: Some(range((9, 0), (10, 0))), day2: None };
    let (d1, d2) = canonical_days(&s.uncombine());
    assert_eq!(d1, vec![range((9, 0), (10, 0))]);
    assert!(d2.is_empty());
}

#[test]
fn combine_after_uncombine_is_identity_on_combined() {
    let s = ScheduleRead::Combined { day1: Some(range((9, 0), (10, 0))), day2: Some(range((11, 0), (12, 0))) };
    let back = s.uncombine().combine();
    assert_eq!(combined_days(&back), combined_days(&s));
}

#[test]
fn uncombine_after_combine_keeps_single_ranges_and_collapses_many() {
    let single = ScheduleRead::NotCombined { day1: vec![range((9, 0), (10, 0))], day2: vec![] };
    assert_eq!(canonical_days(&single.combine().uncombine()), canonical_days(&single));
    let many = ScheduleRead::NotCombined {
        day1: vec![range((9, 0), (12, 0)), range((13, 0), (15, 0))],
        day2: vec![],
    };
    let (d1, d2) = canonical_days(&many.combine().uncombine());
    assert_eq!(d1, vec![range((9, 0), (15, 0))]);
    assert!(d2.is_empty());
}

#[test]
fn combine_mut_and_uncombine_mut_replace_in_place() {
    let mut s = ScheduleRead::NotCombined { day1: vec![range((9, 0), (12, 0)), range((13, 0), (15, 0))], day2: vec![] };
    s.combine_mut();
    assert_eq!(combined_days(&s), (Some(range((9, 0), (15, 0))), None));
    s.uncombine_mut();
    assert_eq!(canonical_days(&s), (vec![range((9, 0), (15, 0))], vec![]));
}

#[test]
fn combine_schedule_of_one_range_is_that_range() {
    let day = vec![range((10, 0), (11, 0))];
    assert_eq!(ScheduleRead::combine_schedule(&day), range((10, 0), (11, 0)));
}

#[test]
fn notice_ranges_read_as_text() {
    let day = vec![range((13, 0), (15, 0)), range((9, 0), (12, 0))];
    assert_eq!(Discord::format_range(&day), "09:00 - 15:00");
    assert_eq!(Discord::format_range(&vec![]), "なし");
    assert_eq!(Discord::combine_range(&day), Some((t(9, 0), t(15, 0))));
    assert_eq!(Discord::combine_range(&vec![]), None);
    assert_eq!(Discord::time_to_string(&t(7, 3)), "07:03");
}

#[test]
fn notifier_keeps_its_webhook() {
    let d = Discord::new("https://hooks.example/abc".to_string());
    assert_eq!(d.webhook_url, "https://hooks.example/abc");
    assert_eq!(d.base_url, "https://api2025.jizi.jp");
}
