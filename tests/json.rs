use plan_catalog::json::{deep_merge, patch_document, Json};

fn s(x: &str) -> Json {
    Json::Str(x.to_string())
}

fn n(x: i64) -> Json {
    Json::Number(serde_json::Number::from(x))
}

fn obj(members: Vec<(&str, Json)>) -> Json {
    Json::Object(members.into_iter().map(|(k, v)| (k.to_string(), v)).collect())
}

fn member<'a>(j: &'a Json, name: &str) -> Option<&'a Json> {
    match j {
        Json::Object(m) => m.iter().find(|(k, _)| k == name).map(|(_, v)| v),
        _ => None,
    }
}

fn sample() -> Json {
    obj(vec![
        ("name", s("cafe")),
        ("is_recommended", Json::Bool(false)),
        ("tags", Json::Array(vec![s("a"), s("b")])),
        ("place", obj(vec![("building", s("A")), ("room", s("101"))])),
    ])
}

#[test]
fn merge_replaces_scalars_and_keeps_the_rest() {
    let mut doc = sample();
    deep_merge(&mut doc, obj(vec![("is_recommended", Json::Bool(true))]));
    assert_eq!(member(&doc, "is_recommended"), Some(&Json::Bool(true)));
    assert_eq!(member(&doc, "name"), Some(&s("cafe")));
    assert_eq!(member(&doc, "tags"), Some(&Json::Array(vec![s("a"), s("b")])));
    assert_eq!(member(&doc, "place"), Some(&obj(vec![("building", s("A")), ("room", s("101"))])));
}

#[test]
fn merge_recurses_into_objects_and_inserts_new_members() {
    let mut doc = sample();
    deep_merge(&mut doc, obj(vec![("place", obj(vec![("room", s("202")), ("floor", n(2))]))]));
    let place = member(&doc, "place").unwrap();
    assert_eq!(member(place, "building"), Some(&s("A")));
    assert_eq!(member(place, "room"), Some(&s("202")));
    assert_eq!(member(place, "floor"), Some(&n(2)));
}

#[test]
fn merge_replaces_arrays_whole() {
    let mut doc = sample();
    deep_merge(&mut doc, obj(vec![("tags", Json::Array(vec![s("z")]))]));
    assert_eq!(member(&doc, "tags"), Some(&Json::Array(vec![s("z")])));
}

#[test]
fn merge_null_overwrites() {
    let mut doc = sample();
    deep_merge(&mut doc, obj(vec![("place", Json::Null), ("name", Json::Null)]));
    assert_eq!(member(&doc, "place"), Some(&Json::Null));
    assert_eq!(member(&doc, "name"), Some(&Json::Null));
}

#[test]
fn merge_with_empty_patch_leaves_object_unchanged() {
    let mut doc = sample();
    deep_merge(&mut doc, obj(vec![]));
    assert_eq!(doc, sample());
}

#[test]
fn merge_twice_is_merge_once() {
    let patch = || obj(vec![("place", obj(vec![("room", s("9"))])), ("count", n(3)), ("tags", Json::Null)]);
    let mut once = sample();
    deep_merge(&mut once, patch());
    let mut twice = sample();
    deep_merge(&mut twice, patch());
    deep_merge(&mut twice, patch());
    assert_eq!(once, twice);
}

#[test]
fn merge_onto_a_non_object_takes_the_patch() {
    let mut doc = n(5);
    deep_merge(&mut doc, obj(vec![("a", n(1))]));
    assert_eq!(doc, obj(vec![("a", n(1))]));
    let mut doc2 = sample();
    deep_merge(&mut doc2, s("flat"));
    assert_eq!(doc2, s("flat"));
}

fn value(text: &str) -> serde_json::Value {
    serde_json::from_str(text).unwrap()
}

#[test]
fn json_text_round_trips() {
    let text = r#"{"a":[1,"x",null,true,2.5],"b":{"c":2}}"#;
    let out = patch_document(text, "{}").unwrap();
    assert_eq!(value(&out), value(text));
    assert!(patch_document("{not json", "{}").is_err());
}

#[test]
fn patch_document_merges_stored_text() {
    let out = patch_document(r#"{"is_recommended":false,"plan_name":"x"}"#, r#"{"is_recommended":true}"#).unwrap();
    assert_eq!(value(&out), value(r#"{"is_recommended":true,"plan_name":"x"}"#));
    let nested = patch_document(r#"{"p":{"a":1,"b":2},"t":[1,2]}"#, r#"{"p":{"b":null},"t":[]}"#).unwrap();
    assert_eq!(value(&nested), value(r#"{"p":{"a":1,"b":null},"t":[]}"#));
    assert!(patch_document("nope", "{}").is_err());
    assert!(patch_document("{}", "nope").is_err());
}
