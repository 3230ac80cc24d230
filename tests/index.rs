use plan_catalog::bulk::{batches, bulk_collect, BATCH_SIZE};
use plan_catalog::keys::{
    get_keys, index_entry, index_keys, is_index_key, key_leq, put_keys, GetKeysError, IndexRead,
    KeyScan, ListPage, ScanStep, INDEX_KEY,
};

fn strings(v: &[&str]) -> Vec<String> {
    v.iter().map(|x| x.to_string()).collect()
}

fn read_keys(entry: Option<String>) -> Vec<String> {
    match get_keys(entry) {
        Ok(IndexRead::Keys(k)) => k,
        other => panic!("expected keys, got {:?}", other),
    }
}

#[test]
fn index_namespace_is_the_keys_prefix() {
    assert!(is_index_key("keys:all"));
    assert!(is_index_key("keys:"));
    assert!(!is_index_key("keys"));
    assert!(!is_index_key("k1"));
    assert!(!is_index_key("xkeys:all"));
    assert!(is_index_key(INDEX_KEY));
}

#[test]
fn key_order_is_character_order() {
    assert!(key_leq("a", "b"));
    assert!(!key_leq("b", "a"));
    assert!(key_leq("ab", "abc"));
    assert!(!key_leq("abc", "ab"));
    assert!(key_leq("k1", "k1"));
    assert!(key_leq("Z", "a"));
}

#[test]
fn index_keys_sorts_and_drops_index_keys() {
    let listing = strings(&["k2", "keys:all", "k10", "a", "keys:old", "k1"]);
    assert_eq!(index_keys(&listing), strings(&["a", "k1", "k10", "k2"]));
}

#[test]
fn put_keys_writes_the_sorted_keys_as_json() {
    let entry = put_keys(&strings(&["k2", "keys:all", "k1"])).unwrap();
    assert_eq!(entry.keys, strings(&["k1", "k2"]));
    assert_eq!(entry.entry, r#"["k1","k2"]"#);
    assert_eq!(index_entry(&strings(&[])).unwrap(), "[]");
}

#[test]
fn rebuild_then_read_gives_the_sorted_primary_keys() {
    let entry = put_keys(&strings(&["c", "keys:all", "a", "b"])).unwrap();
    assert_eq!(read_keys(Some(entry.entry)), strings(&["a", "b", "c"]));
}

#[test]
fn missing_index_asks_for_rebuild_and_rebuild_restores_it() {
    let listing = strings(&["k2", "k1", "keys:all"]);
    let before = read_keys(Some(put_keys(&listing).unwrap().entry));
    assert!(matches!(get_keys(None), Ok(IndexRead::Rebuild)));
    let after = read_keys(Some(put_keys(&listing).unwrap().entry));
    assert_eq!(before, after);
}

#[test]
fn malformed_index_is_an_error_not_a_miss() {
    assert!(matches!(get_keys(Some("not json".to_string())), Err(GetKeysError::SerdeError(_))));
    assert!(matches!(get_keys(Some("[1,2]".to_string())), Err(GetKeysError::SerdeError(_))));
    assert!(matches!(get_keys(Some("{}".to_string())), Err(GetKeysError::SerdeError(_))));
    assert_eq!(read_keys(Some("[]".to_string())), Vec::<String>::new());
}

#[test]
fn scan_follows_the_cursor_until_complete() {
    let mut scan = KeyScan::new();
    let step = scan.next(ListPage { keys: strings(&["k3", "keys:all"]), cursor: Some("c1".to_string()), complete: false });
    match step {
        ScanStep::Continue { cursor } => assert_eq!(cursor, Some("c1".to_string())),
        _ => panic!("expected to continue"),
    }
    let step = scan.next(ListPage { keys: strings(&["k1", "k2"]), cursor: None, complete: true });
    match step {
        ScanStep::Store(e) => {
            assert_eq!(e.keys, strings(&["k1", "k2", "k3"]));
            assert_eq!(e.entry, r#"["k1","k2","k3"]"#);
        }
        _ => panic!("expected to store the index"),
    }
}

#[test]
fn batches_cover_keys_in_hundreds() {
    let keys: Vec<String> = (0..250).map(|i| format!("k{}", i)).collect();
    let b = batches(&keys);
    assert_eq!(BATCH_SIZE, 100);
    assert_eq!(b.len(), 3);
    assert_eq!(b[0].len(), 100);
    assert_eq!(b[1].len(), 100);
    assert_eq!(b[2].len(), 50);
    assert_eq!(b.concat(), keys);
    assert_eq!(batches(&keys[..100].to_vec()).len(), 1);
    assert_eq!(batches(&keys[..101].to_vec()).len(), 2);
    assert!(batches(&vec![]).is_empty());
}

#[test]
fn batched_reads_equal_one_read() {
    let keys: Vec<String> = (0..230).map(|i| format!("k{:03}", i)).collect();
    let store = |k: &String| if k.ends_with('7') { None } else { Some(k.len()) };
    let single = bulk_collect(keys.iter().map(|k| (k.clone(), store(k))).collect());
    let mut batched = Vec::new();
    for b in batches(&keys) {
        batched.extend(bulk_collect(b.iter().map(|k| (k.clone(), store(k))).collect()));
    }
    assert_eq!(batched, single);
    assert_eq!(single.len(), 230 - 23);
}

#[test]
fn bulk_collect_skips_absent_keys() {
    let got = bulk_collect(vec![("a".to_string(), Some(1)), ("b".to_string(), None), ("c".to_string(), Some(3))]);
    assert_eq!(got, vec![("a".to_string(), 1), ("c".to_string(), 3)]);
}
