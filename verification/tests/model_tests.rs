use collision_editor::model::{BoxCollection, BoxKind, BoxRecord, Rect};

fn empty_collection() -> BoxCollection {
    BoxCollection {
        names: vec!["img0".to_string()],
        version: 2,
        editor_data: vec![vec![1, 2, 3]],
        boxes: vec![Vec::new(), Vec::new()],
    }
}

#[test]
fn kind_tags_round_trip() {
    let kinds = [
        BoxKind::Hurtbox,
        BoxKind::Hitbox,
        BoxKind::ExPoint,
        BoxKind::ExRect,
        BoxKind::ExVector,
        BoxKind::Push,
        BoxKind::TempCenter,
        BoxKind::Neck,
        BoxKind::Abdominal,
        BoxKind::AttackVsPush,
        BoxKind::SpGuard,
        BoxKind::RLeg,
        BoxKind::LLeg,
        BoxKind::Private0,
        BoxKind::Private1,
        BoxKind::Private2,
        BoxKind::Private3,
        BoxKind::ExtendJon,
    ];
    for (i, k) in kinds.iter().enumerate() {
        assert_eq!(k.as_u32(), i as u32);
        assert_eq!(BoxKind::try_from_u32(i as u32), Some(*k));
    }
    assert_eq!(BoxKind::try_from_u32(18), None);
    assert_eq!(BoxKind::try_from_u32(u32::MAX), None);
}

#[test]
fn add_hurtbox_to_empty_group_gives_one_zero_record() {
    let mut c = empty_collection();
    c.add_record(0, false);
    assert_eq!(c.boxes[0].len(), 1);
    let r = c.boxes[0][0];
    assert_eq!(r.kind, 0);
    assert_eq!(r.rect.x_offset, 0.0f32.to_bits());
    assert_eq!(r.rect.y_offset, 0.0f32.to_bits());
    assert_eq!(r.rect.width, 0.0f32.to_bits());
    assert_eq!(r.rect.height, 0.0f32.to_bits());
    assert_eq!(r.extra, None);
}

#[test]
fn extended_variant_records_carry_a_zero_extra_tag() {
    let mut c = empty_collection();
    c.add_record(1, true);
    assert_eq!(c.boxes[1].len(), 1);
    assert_eq!(c.boxes[1][0].extra, Some(0));
}

#[test]
fn removing_the_added_record_returns_the_group_to_empty() {
    let mut c = empty_collection();
    c.add_record(0, false);
    c.remove_last_of_kind(0);
    assert!(c.boxes[0].is_empty());
}

#[test]
fn remove_searches_from_the_end() {
    let mut c = empty_collection();
    let marked = BoxRecord {
        kind: 0,
        rect: Rect { x_offset: 7, y_offset: 0, width: 0, height: 0 },
        extra: None,
    };
    c.boxes[0].push(marked);
    c.add_record(0, false);
    // two hurtboxes; removal takes the most recently added (the zero one)
    c.remove_last_of_kind(0);
    assert_eq!(c.boxes[0].len(), 1);
    assert_eq!(c.boxes[0][0].rect.x_offset, 7);
}

#[test]
fn remove_on_a_group_without_the_kind_is_a_no_op() {
    let mut c = empty_collection();
    // a record of another kind sitting in group 0 is not touched
    c.boxes[0].push(BoxRecord {
        kind: 5,
        rect: Rect { x_offset: 1, y_offset: 2, width: 3, height: 4 },
        extra: None,
    });
    c.remove_last_of_kind(0);
    assert_eq!(c.boxes[0].len(), 1);
}

#[test]
fn deep_copy_matches_the_original() {
    let mut c = empty_collection();
    c.add_record(0, false);
    let d = c.deep_copy();
    assert_eq!(d.names, c.names);
    assert_eq!(d.version, c.version);
    assert_eq!(d.editor_data, c.editor_data);
    assert_eq!(d.boxes.len(), c.boxes.len());
    assert_eq!(d.boxes[0].len(), 1);
    assert_eq!(d.boxes[0][0], c.boxes[0][0]);
}
