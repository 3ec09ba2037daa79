use collision_editor::model::BoxCollection;
use collision_editor::store::{NameError, RecordStore};

fn coll(version: u16) -> BoxCollection {
    BoxCollection {
        names: vec!["img".to_string()],
        version,
        editor_data: Vec::new(),
        boxes: vec![Vec::new(), Vec::new()],
    }
}

#[test]
fn get_finds_what_insert_stored() {
    let mut s = RecordStore::new();
    s.insert("a.jonb".to_string(), coll(1));
    s.insert("b.jonb".to_string(), coll(2));
    assert!(s.contains(&"a.jonb".to_string()));
    assert_eq!(s.get(&"b.jonb".to_string()).unwrap().version, 2);
    assert!(s.get(&"c.jonb".to_string()).is_none());
    assert_eq!(s.len(), 2);
}

#[test]
fn insert_replaces_an_existing_name() {
    let mut s = RecordStore::new();
    s.insert("a".to_string(), coll(1));
    s.insert("a".to_string(), coll(9));
    assert_eq!(s.len(), 1);
    assert_eq!(s.get(&"a".to_string()).unwrap().version, 9);
}

#[test]
fn remove_returns_the_stored_collection() {
    let mut s = RecordStore::new();
    s.insert("a".to_string(), coll(4));
    let taken = s.remove(&"a".to_string());
    assert_eq!(taken.unwrap().version, 4);
    assert!(s.remove(&"a".to_string()).is_none());
    assert_eq!(s.len(), 0);
}

#[test]
fn duplicate_rejects_an_empty_name() {
    let mut s = RecordStore::new();
    s.insert("src".to_string(), coll(1));
    let r = s.duplicate_as_new(&"src".to_string(), &"".to_string());
    assert!(matches!(r, Err(NameError::Empty)));
    assert_eq!(s.len(), 1);
}

#[test]
fn duplicate_rejects_a_name_over_32_bytes() {
    let mut s = RecordStore::new();
    s.insert("src".to_string(), coll(1));
    let long = "x".repeat(33);
    let r = s.duplicate_as_new(&"src".to_string(), &long);
    assert!(matches!(r, Err(NameError::TooLong)));
    assert_eq!(s.len(), 1);
}

#[test]
fn duplicate_accepts_a_name_of_exactly_32_bytes() {
    let mut s = RecordStore::new();
    s.insert("src".to_string(), coll(1));
    let exact = "x".repeat(32);
    assert!(s.duplicate_as_new(&"src".to_string(), &exact).is_ok());
    assert!(s.contains(&exact));
}

#[test]
fn duplicate_rejects_a_name_already_present() {
    let mut s = RecordStore::new();
    s.insert("src".to_string(), coll(1));
    s.insert("other".to_string(), coll(2));
    let r = s.duplicate_as_new(&"src".to_string(), &"other".to_string());
    assert!(matches!(r, Err(NameError::AlreadyPresent)));
    assert_eq!(s.get(&"other".to_string()).unwrap().version, 2);
}

#[test]
fn duplicate_makes_a_deep_copy() {
    let mut s = RecordStore::new();
    let mut source = coll(7);
    source.boxes[0].push(collision_editor::model::BoxRecord {
        kind: 0,
        rect: collision_editor::model::Rect { x_offset: 5, y_offset: 6, width: 7, height: 8 },
        extra: None,
    });
    s.insert("src".to_string(), source);
    assert!(s.duplicate_as_new(&"src".to_string(), &"copy".to_string()).is_ok());
    let c = s.get(&"copy".to_string()).unwrap();
    assert_eq!(c.version, 7);
    assert_eq!(c.boxes[0].len(), 1);
    assert_eq!(c.boxes[0][0].rect.x_offset, 5);
    assert_eq!(c.names, vec!["img".to_string()]);
}
