use collision_editor::model::{BoxCollection, ImageError};
use collision_editor::staging::ArchiveMember;
use collision_editor::workspace::{ParsedMember, Workspace};

fn coll() -> BoxCollection {
    BoxCollection {
        names: vec!["one".to_string(), "two".to_string()],
        version: 2,
        editor_data: Vec::new(),
        boxes: vec![Vec::new(), Vec::new()],
    }
}

fn workspace_with_selection() -> Workspace {
    let mut ws = Workspace::open_file(
        "arc".to_string(),
        vec![ArchiveMember {
            name: "a.jonb".to_string(),
            ordering_key: 1,
            sequence_id: 0,
            bytes: b"raw".to_vec(),
        }],
        false,
    );
    ws.load(vec![ParsedMember { name: "a.jonb".to_string(), outcome: Some(coll()) }]);
    ws.select_collection(&"a.jonb".to_string());
    ws
}

#[test]
fn rename_replaces_the_first_name() {
    let mut ws = workspace_with_selection();
    assert!(ws.rename_image(1, &"fresh".to_string()).is_ok());
    let c = ws.store.get(&"a.jonb".to_string()).unwrap();
    assert_eq!(c.names[0], "fresh");
    assert_eq!(c.names[1], "two");
}

#[test]
fn rename_rejects_bad_input() {
    let mut ws = workspace_with_selection();
    assert!(matches!(
        ws.rename_image(5, &"fresh".to_string()),
        Err(ImageError::NoSuchIndex)
    ));
    assert!(matches!(
        ws.rename_image(0, &"".to_string()),
        Err(ImageError::Empty)
    ));
    assert!(matches!(
        ws.rename_image(0, &"z".repeat(33)),
        Err(ImageError::TooLong)
    ));
    let c = ws.store.get(&"a.jonb".to_string()).unwrap();
    assert_eq!(c.names, vec!["one".to_string(), "two".to_string()]);
}

#[test]
fn add_image_appends_a_valid_name() {
    let mut ws = workspace_with_selection();
    assert!(ws.add_image(&"three".to_string()).is_ok());
    let c = ws.store.get(&"a.jonb".to_string()).unwrap();
    assert_eq!(c.names.len(), 3);
    assert_eq!(c.names[2], "three");
    assert!(matches!(ws.add_image(&"".to_string()), Err(ImageError::Empty)));
    assert!(matches!(
        ws.add_image(&"w".repeat(40)),
        Err(ImageError::TooLong)
    ));
}

#[test]
fn remove_image_pops_the_last_name() {
    let mut ws = workspace_with_selection();
    assert!(ws.remove_image());
    assert!(ws.remove_image());
    assert!(!ws.remove_image());
    let c = ws.store.get(&"a.jonb".to_string()).unwrap();
    assert!(c.names.is_empty());
}
