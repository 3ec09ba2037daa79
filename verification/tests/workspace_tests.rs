use collision_editor::hash::name_hash;
use collision_editor::model::BoxCollection;
use collision_editor::session::FieldId;
use collision_editor::staging::{ArchiveMember, FileData};
use collision_editor::store::NameError;
use collision_editor::workspace::{ParsedMember, Workspace};

fn member(name: &str, key: u32, id: u32, bytes: &[u8]) -> ArchiveMember {
    ArchiveMember {
        name: name.to_string(),
        ordering_key: key,
        sequence_id: id,
        bytes: bytes.to_vec(),
    }
}

fn coll_with_one_hurtbox() -> BoxCollection {
    let mut c = BoxCollection {
        names: vec!["img".to_string()],
        version: 2,
        editor_data: Vec::new(),
        boxes: vec![Vec::new(), Vec::new()],
    };
    c.add_record(0, false);
    c
}

fn parse_field(text: &str) -> Option<u32> {
    match text.parse::<f32>() {
        Ok(v) => Some(v.to_bits()),
        Err(_) => None,
    }
}

/// Opens a workspace with two parsed collections, `a.jonb` and `b.jonb`.
fn two_collection_workspace() -> Workspace {
    let mut ws = Workspace::open_file(
        "arc".to_string(),
        vec![member("a.jonb", 100, 0, b"rawa"), member("b.jonb", 200, 1, b"rawb")],
        false,
    );
    ws.load(vec![
        ParsedMember { name: "a.jonb".to_string(), outcome: Some(coll_with_one_hurtbox()) },
        ParsedMember { name: "b.jonb".to_string(), outcome: Some(coll_with_one_hurtbox()) },
    ]);
    ws
}

#[test]
fn load_skips_members_the_codec_rejected() {
    let mut ws = Workspace::open_file(
        "arc".to_string(),
        vec![member("good.jonb", 1, 0, b"g"), member("bad.jonb", 2, 1, b"b")],
        false,
    );
    ws.load(vec![
        ParsedMember { name: "good.jonb".to_string(), outcome: Some(coll_with_one_hurtbox()) },
        ParsedMember { name: "bad.jonb".to_string(), outcome: None },
    ]);
    assert!(ws.store.contains(&"good.jonb".to_string()));
    assert!(!ws.store.contains(&"bad.jonb".to_string()));
}

#[test]
fn flush_before_switch_persists_the_edit() {
    let mut ws = two_collection_workspace();
    let a = "a.jonb".to_string();
    let b = "b.jonb".to_string();

    assert!(ws.select_collection(&a).is_none());
    ws.select_record(0, 0, "0".to_string(), "0".to_string(), "0".to_string(), "0".to_string());
    ws.session.edit_field(FieldId::XOffset, "99".to_string());
    let x = parse_field(&ws.session.fields.x);
    ws.session.eval_fields(x, None, None, None);

    // switching to B flushes A first
    let op = ws.select_collection(&b).expect("a flush of the previous selection");
    assert_eq!(op.name, "a.jonb");
    assert_eq!(op.coll.boxes[0][0].rect.x_offset, 99.0f32.to_bits());

    // re-reading A's staged file shows the edit
    match ws.staging.get_file(&a) {
        Some(FileData::Encoded(c)) => {
            assert_eq!(c.boxes[0][0].rect.x_offset, 99.0f32.to_bits());
        },
        _ => panic!("A's staged file should hold its flushed collection"),
    }
    // the tracked collection was updated too
    assert_eq!(
        ws.store.get(&a).unwrap().boxes[0][0].rect.x_offset,
        99.0f32.to_bits()
    );
}

#[test]
fn zero_edit_repack_reproduces_members_in_hash_order() {
    // keys deliberately out of order: the repack must sort ascending
    let mut ws = Workspace::open_file(
        "arc".to_string(),
        vec![
            member("late.bin", 300, 0, b"LLL"),
            member("early.bin", 100, 1, b"EEE"),
            member("middle.bin", 200, 2, b"MMM"),
        ],
        false,
    );
    let out = ws.write_pac();
    assert_eq!(out.len(), 3);
    assert_eq!(out[0].name, "early.bin");
    assert_eq!(out[1].name, "middle.bin");
    assert_eq!(out[2].name, "late.bin");
    for (i, m) in out.iter().enumerate() {
        assert_eq!(m.sequence_id, i as u32);
    }
    match &out[0].data {
        FileData::Raw(b) => assert_eq!(b, b"EEE"),
        _ => panic!("untouched members keep their raw bytes"),
    }
    match &out[2].data {
        FileData::Raw(b) => assert_eq!(b, b"LLL"),
        _ => panic!("untouched members keep their raw bytes"),
    }
}

#[test]
fn equal_keys_keep_their_prior_relative_order() {
    let mut ws = Workspace::open_file(
        "arc".to_string(),
        vec![
            member("first.bin", 7, 0, b"1"),
            member("second.bin", 7, 1, b"2"),
            member("third.bin", 3, 2, b"3"),
        ],
        false,
    );
    let out = ws.write_pac();
    assert_eq!(out.len(), 3);
    assert_eq!(out[0].name, "third.bin");
    assert_eq!(out[1].name, "first.bin");
    assert_eq!(out[2].name, "second.bin");
}

#[test]
fn a_file_added_by_hand_joins_the_repack_under_its_hash() {
    let mut ws = Workspace::open_file(
        "arc".to_string(),
        vec![member("a.bin", 5, 0, b"aaa")],
        false,
    );
    ws.staging.add_staged_file("New.bin".to_string(), b"fresh".to_vec());
    let out = ws.write_pac();
    assert_eq!(out.len(), 2);
    let added = out.iter().find(|m| m.name == "New.bin").expect("the added file");
    assert_eq!(added.ordering_key, name_hash(b"New.bin"));
    match &added.data {
        FileData::Raw(b) => assert_eq!(b, b"fresh"),
        _ => panic!("an added file keeps its raw bytes"),
    }
    // ascending keys overall
    for w in out.windows(2) {
        assert!(w[0].ordering_key <= w[1].ordering_key);
    }
}

#[test]
fn a_file_deleted_before_repack_is_simply_absent() {
    let mut ws = Workspace::open_file(
        "arc".to_string(),
        vec![member("a.bin", 5, 0, b"aaa"), member("b.bin", 9, 1, b"bbb")],
        false,
    );
    assert!(ws.staging.remove_staged_file(&"a.bin".to_string()));
    let out = ws.write_pac();
    assert_eq!(out.len(), 1);
    assert_eq!(out[0].name, "b.bin");
}

#[test]
fn repack_serializes_tracked_collections() {
    let mut ws = two_collection_workspace();
    let out = ws.write_pac();
    assert_eq!(out.len(), 2);
    for m in &out {
        match &m.data {
            FileData::Encoded(c) => assert_eq!(c.version, 2),
            FileData::Raw(_) => panic!("tracked members are re-encoded"),
        }
    }
}

#[test]
fn create_jonb_duplicates_selects_and_flushes() {
    let mut ws = two_collection_workspace();
    let a = "a.jonb".to_string();
    ws.select_collection(&a);
    let op = ws.create_jonb(&"copy.jonb".to_string()).expect("a valid new name");
    assert_eq!(op.name, "copy.jonb");
    assert!(ws.store.contains(&"copy.jonb".to_string()));
    assert_eq!(ws.session.selected, Some("copy.jonb".to_string()));
    match ws.staging.get_file(&"copy.jonb".to_string()) {
        Some(FileData::Encoded(c)) => assert_eq!(c.version, 2),
        _ => panic!("the copy is flushed to a fresh member file"),
    }
}

#[test]
fn create_jonb_rejects_bad_names() {
    let mut ws = two_collection_workspace();
    let a = "a.jonb".to_string();
    ws.select_collection(&a);
    assert!(matches!(
        ws.create_jonb(&"".to_string()),
        Err(NameError::Empty)
    ));
    assert!(matches!(
        ws.create_jonb(&"y".repeat(33)),
        Err(NameError::TooLong)
    ));
    assert!(matches!(
        ws.create_jonb(&"b.jonb".to_string()),
        Err(NameError::AlreadyPresent)
    ));
}

#[test]
fn mutating_a_duplicate_leaves_the_source_alone() {
    let mut ws = two_collection_workspace();
    let a = "a.jonb".to_string();
    ws.select_collection(&a);
    ws.create_jonb(&"copy.jonb".to_string()).expect("a valid new name");
    // the copy is now selected; grow its hurtbox group
    ws.add_hurtbox();
    assert_eq!(ws.store.get(&"copy.jonb".to_string()).unwrap().boxes[0].len(), 2);
    assert_eq!(ws.store.get(&a).unwrap().boxes[0].len(), 1);
}

#[test]
fn add_and_remove_records_follow_the_selection() {
    let mut ws = two_collection_workspace();
    let a = "a.jonb".to_string();

    // without a selection nothing happens
    ws.add_hitbox();
    assert_eq!(ws.store.get(&a).unwrap().boxes[1].len(), 0);

    ws.select_collection(&a);
    ws.add_hitbox();
    assert_eq!(ws.store.get(&a).unwrap().boxes[1].len(), 1);
    assert_eq!(ws.store.get(&a).unwrap().boxes[1][0].kind, 1);
    ws.remove_hitbox();
    assert_eq!(ws.store.get(&a).unwrap().boxes[1].len(), 0);

    ws.add_hurtbox();
    assert_eq!(ws.store.get(&a).unwrap().boxes[0].len(), 2);
    ws.remove_hurtbox();
    ws.remove_hurtbox();
    assert_eq!(ws.store.get(&a).unwrap().boxes[0].len(), 0);
}

#[test]
fn an_empty_archive_repacks_to_no_members() {
    let mut ws = Workspace::open_file("arc".to_string(), Vec::new(), false);
    let out = ws.write_pac();
    assert!(out.is_empty());
}

#[test]
fn reset_clears_the_workspace_but_keeps_the_variant() {
    let mut ws = Workspace::open_file(
        "arc".to_string(),
        vec![member("a.bin", 5, 0, b"aaa")],
        true,
    );
    ws.reset();
    assert_eq!(ws.staging.meta.len(), 0);
    assert_eq!(ws.staging.file_count(), 0);
    assert!(ws.session.selected.is_none());
    assert!(ws.extended);
}
