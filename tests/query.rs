use plan_catalog::base::Location;
use plan_catalog::plan::PlanRead;
use plan_catalog::plan_type::PlanTypeRead;
use plan_catalog::query::{parse_bool, split_commas, PlanQuery};
use plan_catalog::schedule::{ScheduleRead, Time};

fn plan(id: &str, plan_type: PlanTypeRead, recommended: bool, child: bool) -> PlanRead {
    PlanRead {
        id: id.to_string(),
        plan_type,
        organization_name: "org".to_string(),
        plan_name: id.to_string(),
        description: String::new(),
        is_child_friendly: child,
        is_recommended: recommended,
        schedule: ScheduleRead::NotCombined { day1: vec![], day2: vec![] },
        location: vec![Location::OutdoorLocation { name: "yard".to_string() }],
        coordinates: None,
    }
}

fn pairs(v: &[(&str, &str)]) -> Vec<(String, String)> {
    v.iter().map(|(a, b)| (a.to_string(), b.to_string())).collect()
}

fn ids(v: &[PlanRead]) -> Vec<String> {
    v.iter().map(|p| p.id.clone()).collect()
}

fn sample() -> Vec<PlanRead> {
    vec![
        plan("b1", PlanTypeRead::Booth { categories: vec![] }, true, false),
        plan("g1", PlanTypeRead::General { categories: vec![] }, false, true),
        plan("l1", PlanTypeRead::Labo { is_lab_tour: true }, true, true),
        plan("l2", PlanTypeRead::Labo { is_lab_tour: false }, false, false),
        plan("s1", PlanTypeRead::Stage {}, false, false),
    ]
}

#[test]
fn query_parameters_are_read() {
    let q = PlanQuery::from_pairs(&pairs(&[("type", "booth,labo"), ("recommended", "true"), ("lab_tour", "maybe"), ("combine_schedule", "false")]));
    assert_eq!(q.plan_types, Some(vec!["booth".to_string(), "labo".to_string()]));
    assert_eq!(q.recommended, Some(true));
    assert_eq!(q.child_friendly, None);
    assert_eq!(q.lab_tour, None);
    assert!(!q.combine_schedule);
    let q = PlanQuery::from_pairs(&pairs(&[("combine_schedule", "nope"), ("recommended", "true"), ("recommended", "false")]));
    assert!(q.combine_schedule);
    assert_eq!(q.recommended, Some(false));
}

#[test]
fn no_filters_keep_everything_in_order() {
    let q = PlanQuery::from_pairs(&vec![]);
    assert_eq!(ids(&q.filter(sample())), vec!["b1", "g1", "l1", "l2", "s1"]);
}

#[test]
fn filters_combine() {
    let q = PlanQuery::from_pairs(&pairs(&[("recommended", "true")]));
    assert_eq!(ids(&q.filter(sample())), vec!["b1", "l1"]);
    let q = PlanQuery::from_pairs(&pairs(&[("type", "labo"), ("lab_tour", "false")]));
    assert_eq!(ids(&q.filter(sample())), vec!["l2"]);
    let q = PlanQuery::from_pairs(&pairs(&[("lab_tour", "true")]));
    assert_eq!(ids(&q.filter(sample())), vec!["b1", "g1", "l1", "s1"]);
    let q = PlanQuery::from_pairs(&pairs(&[("child_friendly", "true"), ("type", "general,stage")]));
    assert_eq!(ids(&q.filter(sample())), vec!["g1"]);
}

#[test]
fn splitting_and_bools_follow_std() {
    assert_eq!(split_commas("a,,b"), vec!["a", "", "b"]);
    assert_eq!(split_commas(""), vec![""]);
    assert_eq!(split_commas("x,"), vec!["x", ""]);
    assert_eq!(parse_bool("true"), Some(true));
    assert_eq!(parse_bool("false"), Some(false));
    assert_eq!(parse_bool("True"), None);
}

#[test]
fn times_parse_from_hh_mm() {
    assert_eq!(Time::parse_hhmm("09:30"), Time::new(9, 30));
    assert_eq!(Time::parse_hhmm("9:5"), Time::new(9, 5));
    assert_eq!(Time::parse_hhmm("+9:05"), Time::new(9, 5));
    assert_eq!(Time::parse_hhmm("23:59"), Time::new(23, 59));
    assert_eq!(Time::parse_hhmm("24:00"), None);
    assert_eq!(Time::parse_hhmm("12:60"), None);
    assert_eq!(Time::parse_hhmm("12"), None);
    assert_eq!(Time::parse_hhmm("1:2:3"), None);
    assert_eq!(Time::parse_hhmm(":30"), None);
    assert_eq!(Time::parse_hhmm("ab:cd"), None);
    assert_eq!(Time::parse_hhmm("300:00"), None);
    assert_eq!(Time::parse_hhmm("009:00"), Time::new(9, 0));
}
