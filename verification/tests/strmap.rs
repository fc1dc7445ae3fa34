use webserver::StringMap;

fn entries(map: &StringMap) -> Vec<(String, String)> {
    let mut all = Vec::new();
    let mut i = 0;
    while let Some((k, v)) = map.entry(i) {
        all.push((k.clone(), v.clone()));
        i += 1;
    }
    all
}

fn pair(k: &str, v: &str) -> (String, String) {
    (k.to_string(), v.to_string())
}

#[test]
fn new_map_is_empty() {
    let map = StringMap::new();
    assert_eq!(map.len(), 0);
    assert!(map.is_empty());
    assert!(map.get("a").is_none());
    assert!(!map.contains_key(""));
    assert!(map.entry(0).is_none());
}

#[test]
fn insert_adds_and_replaces() {
    let mut map = StringMap::new();
    map.insert("a".to_string(), "1".to_string());
    map.insert("b".to_string(), "2".to_string());
    assert_eq!(map.len(), 2);
    assert!(!map.is_empty());
    assert_eq!(map.get("a").map(|v| v.as_str()), Some("1"));
    map.insert("a".to_string(), "3".to_string());
    assert_eq!(map.len(), 2);
    assert_eq!(map.get("a").map(|v| v.as_str()), Some("3"));
    assert_eq!(map.get("b").map(|v| v.as_str()), Some("2"));
    assert!(map.contains_key("a"));
    assert!(!map.contains_key("A"));
    assert!(!map.contains_key("ab"));
}

#[test]
fn replaced_key_keeps_its_place() {
    let mut map = StringMap::new();
    map.insert("x".to_string(), "1".to_string());
    map.insert("y".to_string(), "2".to_string());
    map.insert("z".to_string(), "3".to_string());
    map.insert("y".to_string(), "4".to_string());
    map.insert("".to_string(), "5".to_string());
    assert_eq!(entries(&map), vec![pair("x", "1"), pair("y", "4"), pair("z", "3"), pair("", "5")]);
    assert!(map.entry(4).is_none());
    assert!(map.entry(usize::MAX).is_none());
}

#[test]
fn clone_is_equal_and_independent() {
    let mut map = StringMap::new();
    map.insert("k".to_string(), "v".to_string());
    map.insert("\u{e9}".to_string(), "\u{1f600}".to_string());
    let copy = map.clone();
    map.insert("k".to_string(), "w".to_string());
    map.insert("new".to_string(), "n".to_string());
    assert_eq!(entries(&copy), vec![pair("k", "v"), pair("\u{e9}", "\u{1f600}")]);
    assert_eq!(map.len(), 3);
    assert_eq!(copy.get("\u{e9}").map(|v| v.as_str()), Some("\u{1f600}"));
}
