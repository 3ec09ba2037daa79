use collision_editor::staging::{ArchiveMember, FileData, StagingArea};

fn member(name: &str, key: u32, id: u32, bytes: &[u8]) -> ArchiveMember {
    ArchiveMember {
        name: name.to_string(),
        ordering_key: key,
        sequence_id: id,
        bytes: bytes.to_vec(),
    }
}

#[test]
fn staging_records_one_file_and_one_sidecar_line_per_member() {
    let s = StagingArea::stage(
        "base".to_string(),
        vec![member("a.bin", 10, 0, b"aaa"), member("b.bin", 20, 1, b"bbb")],
    );
    assert_eq!(s.base_name, "base");
    assert_eq!(s.meta.len(), 2);
    assert_eq!(s.meta[0].name, "a.bin");
    assert_eq!(s.meta[0].ordering_key, 10);
    assert_eq!(s.meta[1].sequence_id, 1);
    assert_eq!(s.file_count(), 2);
    match s.get_file(&"a.bin".to_string()) {
        Some(FileData::Raw(b)) => assert_eq!(b, b"aaa"),
        _ => panic!("expected the raw staged bytes"),
    }
}

#[test]
fn a_file_added_by_hand_is_tracked() {
    let mut s = StagingArea::stage("base".to_string(), vec![member("a.bin", 10, 0, b"aaa")]);
    s.add_staged_file("extra.bin".to_string(), b"xyz".to_vec());
    assert_eq!(s.file_count(), 2);
    match s.get_file(&"extra.bin".to_string()) {
        Some(FileData::Raw(b)) => assert_eq!(b, b"xyz"),
        _ => panic!("expected the raw added bytes"),
    }
}

#[test]
fn adding_an_existing_name_overwrites_the_content() {
    let mut s = StagingArea::stage("base".to_string(), vec![member("a.bin", 10, 0, b"aaa")]);
    s.add_staged_file("a.bin".to_string(), b"new".to_vec());
    assert_eq!(s.file_count(), 1);
    match s.get_file(&"a.bin".to_string()) {
        Some(FileData::Raw(b)) => assert_eq!(b, b"new"),
        _ => panic!("expected the overwritten bytes"),
    }
}

#[test]
fn a_removed_file_is_gone() {
    let mut s = StagingArea::stage(
        "base".to_string(),
        vec![member("a.bin", 10, 0, b"aaa"), member("b.bin", 20, 1, b"bbb")],
    );
    assert!(s.remove_staged_file(&"a.bin".to_string()));
    assert!(s.get_file(&"a.bin".to_string()).is_none());
    assert!(!s.remove_staged_file(&"a.bin".to_string()));
    assert_eq!(s.file_count(), 1);
}
