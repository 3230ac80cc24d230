use plan_catalog::base::Location;
use plan_catalog::details::{
    CreatePlanDetails, PlanDetailsReadError, PlanDetailsUpdateError, ReadPlanDetails,
    UpdatePlanDetails,
};
use plan_catalog::plan::{PlanCreate, PlanCreateError, PlanRead, PlanReadError, PlanUpdate, PlanUpdateError};
use plan_catalog::plan_type::{BoothPlanCategory, PlanTypeCreate, PlanTypeRead};
use plan_catalog::products::{ProductItem, ProductsCreate};
use plan_catalog::schedule::{DaySchedule, ScheduleCreate, ScheduleRead, Time};

fn range(a: (u8, u8), b: (u8, u8)) -> DaySchedule {
    DaySchedule { start_time: Time::new(a.0, a.1).unwrap(), end_time: Time::new(b.0, b.1).unwrap() }
}

fn new_plan() -> PlanCreate {
    PlanCreate {
        plan_type: PlanTypeCreate::Booth { categories: vec![BoothPlanCategory::MainRice] },
        organization_name: "club".to_string(),
        plan_name: "rice".to_string(),
        description: "hot rice".to_string(),
        is_child_friendly: true,
        is_recommended: false,
        schedule: ScheduleCreate { day1: vec![range((9, 0), (12, 0)), range((13, 0), (15, 0))], day2: vec![] },
        location: vec![Location::IndoorLocation { building: "A".to_string(), room: "101".to_string() }],
        coordinates: None,
    }
}

fn stored(id: &str) -> PlanRead {
    match new_plan().create(id, None) {
        Ok(p) => p,
        Err(_) => panic!("creation refused"),
    }
}

#[test]
fn create_builds_the_record_under_the_id() {
    let p = stored("k1");
    assert_eq!(p.id, "k1");
    assert_eq!(p.plan_type, PlanTypeRead::Booth { categories: vec![BoothPlanCategory::MainRice] });
    assert_eq!(p.organization_name, "club");
    assert!(p.is_child_friendly);
    assert!(!p.is_recommended);
    match &p.schedule {
        ScheduleRead::NotCombined { day1, day2 } => {
            assert_eq!(day1.len(), 2);
            assert!(day2.is_empty());
        }
        _ => panic!("stored schedules are canonical"),
    }
    match p.schedule.combine() {
        ScheduleRead::Combined { day1, day2 } => {
            assert_eq!(day1, Some(range((9, 0), (15, 0))));
            assert_eq!(day2, None);
        }
        _ => panic!("expected the combined form"),
    }
}

#[test]
fn create_twice_is_a_conflict() {
    let _first = stored("k1");
    let existing = Some(r#"{"id":"k1"}"#.to_string());
    assert!(matches!(new_plan().create("k1", existing), Err(PlanCreateError::Conflict)));
}

#[test]
fn read_of_missing_plan_is_not_found() {
    assert!(matches!(PlanRead::read(None), Err(PlanReadError::NotFound)));
    let p = PlanRead::read(Some(stored("k9"))).unwrap();
    assert_eq!(p.id, "k9");
}

#[test]
fn read_all_orders_by_id_whatever_the_creation_order() {
    let results = vec![
        vec![("k2".to_string(), Some(stored("k2"))), ("gone".to_string(), None)],
        vec![("k1".to_string(), Some(stored("k1")))],
    ];
    let all = PlanRead::read_all(results);
    let ids: Vec<&str> = all.iter().map(|p| p.id.as_str()).collect();
    assert_eq!(ids, vec!["k1", "k2"]);
}

#[test]
fn read_all_batches_skip_index_keys() {
    let mut keys: Vec<String> = (0..150).map(|i| format!("p{:03}", i)).collect();
    keys.push("keys:all".to_string());
    let b = PlanRead::read_all_batches(&keys);
    assert_eq!(b.len(), 2);
    assert_eq!(b[0].len() + b[1].len(), 150);
    assert!(b.iter().all(|x| x.iter().all(|k| !k.starts_with("keys:"))));
}

#[test]
fn patch_recommended_leaves_other_fields() {
    let text = r#"{"id":"k1","plan_name":"rice","is_recommended":false,"location":[{"type":"indoor","building":"A","room":"101"}]}"#;
    let out = PlanUpdate::update(Some(text.to_string()), r#"{"is_recommended":true}"#).unwrap();
    let before: serde_json::Value = serde_json::from_str(text).unwrap();
    let after: serde_json::Value = serde_json::from_str(&out).unwrap();
    assert_eq!(after["is_recommended"], serde_json::Value::Bool(true));
    for name in ["id", "plan_name", "location"] {
        assert_eq!(after[name], before[name]);
    }
    assert_eq!(after.as_object().unwrap().len(), before.as_object().unwrap().len());
}

#[test]
fn patch_of_missing_or_corrupt_plan_fails() {
    assert!(matches!(PlanUpdate::update(None, "{}"), Err(PlanUpdateError::NotFound)));
    assert!(matches!(PlanUpdate::update(Some("{".to_string()), "{}"), Err(PlanUpdateError::SerdeError(_))));
    assert!(matches!(PlanUpdate::update(Some("{}".to_string()), "{"), Err(PlanUpdateError::SerdeError(_))));
}

#[test]
fn plan_details_round() {
    let details = CreatePlanDetails {
        product: Some(ProductsCreate {
            items: vec![ProductItem { name: "tea".to_string(), price: Some(serde_json::Number::from(200)), options: vec![] }],
            description: "drinks".to_string(),
        }),
        additional_info: Some("cash only".to_string()),
    };
    let record = details.create();
    assert_eq!(record.additional_info, Some("cash only".to_string()));
    let product = record.product.as_ref().unwrap();
    assert_eq!(product.description, "drinks");
    assert_eq!(product.items[0].name, "tea");
    assert!(matches!(ReadPlanDetails::read(None), Err(PlanDetailsReadError::NotFound)));
    let out = UpdatePlanDetails::update(Some(r#"{"additional_info":"x"}"#.to_string()), r#"{"additional_info":null}"#).unwrap();
    assert_eq!(out, r#"{"additional_info":null}"#);
    let kept = UpdatePlanDetails::update(Some(r#"{"additional_info":"x","product":null}"#.to_string()), "{}").unwrap();
    let kept: serde_json::Value = serde_json::from_str(&kept).unwrap();
    assert_eq!(kept["additional_info"], serde_json::Value::String("x".to_string()));
    assert!(matches!(UpdatePlanDetails::update(None, "{}"), Err(PlanDetailsUpdateError::NotFound)));
}
