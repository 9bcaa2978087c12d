use its_extract::key_set::{KeySet, OBSERVATIONS_PER_KEY};

#[test]
fn new_key_set_is_empty() {
    let keys = KeySet::new();
    assert_eq!(keys.len(), 0);
    assert!(!keys.contains(&"A".to_string()));
    assert_eq!(keys.quota(), Some(0));
}

#[test]
fn insert_reports_whether_the_key_was_new() {
    let mut keys = KeySet::new();
    assert!(keys.insert("1030011501".to_string()));
    assert!(keys.insert("1030011502".to_string()));
    assert!(!keys.insert("1030011501".to_string()));
    assert_eq!(keys.len(), 2);
    assert!(keys.contains(&"1030011501".to_string()));
    assert!(keys.contains(&"1030011502".to_string()));
    assert!(!keys.contains(&"1030011503".to_string()));
}

#[test]
fn keys_are_compared_whole() {
    let mut keys = KeySet::new();
    keys.insert("AB".to_string());
    assert!(!keys.contains(&"A".to_string()));
    assert!(!keys.contains(&"ABC".to_string()));
    assert!(!keys.contains(&"".to_string()));
    assert!(!keys.contains(&"ab".to_string()));
}

#[test]
fn the_empty_string_can_be_a_key() {
    let mut keys = KeySet::new();
    assert!(keys.insert(String::new()));
    assert!(keys.contains(&String::new()));
    assert_eq!(keys.len(), 1);
}

#[test]
fn quota_is_288_rows_per_key() {
    assert_eq!(OBSERVATIONS_PER_KEY, 288);
    let mut keys = KeySet::new();
    keys.insert("A".to_string());
    assert_eq!(keys.quota(), Some(288));
    keys.insert("B".to_string());
    assert_eq!(keys.quota(), Some(576));
    keys.insert("B".to_string());
    assert_eq!(keys.quota(), Some(576));
}

#[test]
fn keys_are_found_in_whatever_order_they_were_added() {
    let mut keys = KeySet::new();
    let mut added = Vec::new();
    let mut seed: u64 = 12345;
    for _ in 0..2000 {
        seed = seed.wrapping_mul(6364136223846793005).wrapping_add(1442695040888963407);
        let key = format!("{}", 1_000_000_000 + (seed >> 33) % 5000);
        let new = !added.contains(&key);
        assert_eq!(keys.insert(key.clone()), new);
        if new {
            added.push(key);
        }
    }
    assert_eq!(keys.len(), added.len());
    for key in &added {
        assert!(keys.contains(key));
    }
    for n in 0..5000u64 {
        let key = format!("{}", 1_000_000_000 + n);
        assert_eq!(keys.contains(&key), added.contains(&key));
    }
}

#[test]
fn a_key_and_its_prefix_are_two_keys() {
    let mut keys = KeySet::new();
    assert!(keys.insert("103001".to_string()));
    assert!(keys.insert("1030".to_string()));
    assert!(keys.insert("10300150".to_string()));
    assert!(keys.insert("".to_string()));
    assert_eq!(keys.len(), 4);
    assert!(keys.contains(&"1030".to_string()));
    assert!(keys.contains(&"103001".to_string()));
    assert!(keys.contains(&"10300150".to_string()));
    assert!(keys.contains(&"".to_string()));
    assert!(!keys.contains(&"10300".to_string()));
    assert!(!keys.contains(&"1030015".to_string()));
}

#[test]
fn keys_need_not_be_ascii() {
    let mut keys = KeySet::new();
    assert!(keys.insert("서울".to_string()));
    assert!(keys.insert("é".to_string()));
    assert!(keys.insert("e".to_string()));
    assert!(!keys.insert("서울".to_string()));
    assert_eq!(keys.len(), 3);
    assert!(keys.contains(&"서울".to_string()));
    assert!(keys.contains(&"é".to_string()));
    assert!(!keys.contains(&"서".to_string()));
    assert!(!keys.contains(&"울".to_string()));
}
