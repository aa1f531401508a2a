use bughunt_rust::hash_map::PropHashMap;

#[test]
fn new_map_is_empty() {
    let m = PropHashMap::new();
    assert!(m.is_empty());
    assert_eq!(m.len(), 0);
    assert_eq!(m.get(&0), None);
}

#[test]
fn default_map_is_empty() {
    let m: PropHashMap = Default::default();
    assert!(m.is_empty());
    assert_eq!(m.len(), 0);
}

#[test]
fn insert_fresh_key_returns_none() {
    let mut m = PropHashMap::new();
    assert_eq!(m.insert(3, 30), None);
    assert_eq!(m.len(), 1);
    assert!(!m.is_empty());
    assert_eq!(m.get(&3), Some(&30));
}

#[test]
fn insert_existing_key_returns_previous_value() {
    // Overwriting an existing key: the second insert returns the first
    // value, the lookup sees the second value, and the length stays one.
    let mut m = PropHashMap::new();
    assert_eq!(m.insert(1, 10), None);
    assert_eq!(m.insert(1, 20), Some(10));
    assert_eq!(m.get(&1), Some(&20));
    assert_eq!(m.len(), 1);
}

#[test]
fn insert_returns_previous_iff_key_present() {
    let mut m = PropHashMap::new();
    assert_eq!(m.insert(7, 70), None);
    assert_eq!(m.insert(8, 80), None);
    assert_eq!(m.insert(7, 71), Some(70));
    assert_eq!(m.insert(8, 81), Some(80));
    assert_eq!(m.insert(9, 90), None);
    assert_eq!(m.len(), 3);
    assert_eq!(m.get(&7), Some(&71));
    assert_eq!(m.get(&8), Some(&81));
    assert_eq!(m.get(&9), Some(&90));
}

#[test]
fn remove_present_key_returns_value() {
    let mut m = PropHashMap::new();
    m.insert(1, 10);
    m.insert(2, 20);
    m.insert(3, 30);
    assert_eq!(m.remove(&2), Some(20));
    assert_eq!(m.len(), 2);
    assert_eq!(m.get(&2), None);
    assert_eq!(m.get(&1), Some(&10));
    assert_eq!(m.get(&3), Some(&30));
}

#[test]
fn remove_absent_key_returns_none() {
    let mut m = PropHashMap::new();
    m.insert(1, 10);
    assert_eq!(m.remove(&2), None);
    assert_eq!(m.len(), 1);
}

#[test]
fn clear_always_yields_length_zero() {
    let mut m = PropHashMap::new();
    m.clear();
    assert_eq!(m.len(), 0);
    m.insert(1, 10);
    m.insert(2, 20);
    m.clear();
    assert_eq!(m.len(), 0);
    assert!(m.is_empty());
    // clearing twice is the same as clearing once
    m.clear();
    assert_eq!(m.len(), 0);
}

#[test]
fn reinsert_after_remove() {
    let mut m = PropHashMap::new();
    m.insert(5, 50);
    assert_eq!(m.remove(&5), Some(50));
    assert_eq!(m.insert(5, 51), None);
    assert_eq!(m.get(&5), Some(&51));
}
