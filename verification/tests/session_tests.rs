use collision_editor::model::{BoxRecord, Rect};
use collision_editor::session::{
    EditSession, FieldId, DEFAULT_PAN_X_BITS, DEFAULT_PAN_Y_BITS,
};

fn parse_field(text: &str) -> Option<u32> {
    match text.parse::<f32>() {
        Ok(v) => Some(v.to_bits()),
        Err(_) => None,
    }
}

fn session_with_record() -> EditSession {
    let mut s = EditSession::new();
    s.current = Some(BoxRecord {
        kind: 0,
        rect: Rect {
            x_offset: 1.0f32.to_bits(),
            y_offset: 2.0f32.to_bits(),
            width: 3.0f32.to_bits(),
            height: 4.0f32.to_bits(),
        },
        extra: None,
    });
    s
}

#[test]
fn fresh_session_fields_read_zero() {
    let s = EditSession::new();
    assert_eq!(s.fields.x, "0.0");
    assert_eq!(s.fields.y, "0.0");
    assert_eq!(s.fields.w, "0.0");
    assert_eq!(s.fields.h, "0.0");
    assert!(s.selected.is_none());
    assert!(s.current.is_none());
}

#[test]
fn default_pan_anchor_is_640_by_802() {
    assert_eq!(DEFAULT_PAN_X_BITS, 640.0f32.to_bits());
    assert_eq!(DEFAULT_PAN_Y_BITS, 802.0f32.to_bits());
}

#[test]
fn pan_resets_to_the_default_anchor() {
    let mut s = EditSession::new();
    s.set_pan(13.5f32.to_bits(), (-2.0f32).to_bits());
    assert_eq!(s.pan_x, 13.5f32.to_bits());
    s.reset_pan();
    assert_eq!(s.pan_x, DEFAULT_PAN_X_BITS);
    assert_eq!(s.pan_y, DEFAULT_PAN_Y_BITS);
}

#[test]
fn edit_field_stores_the_text_verbatim() {
    let mut s = EditSession::new();
    s.edit_field(FieldId::XOffset, "12.5".to_string());
    s.edit_field(FieldId::Height, "abc".to_string());
    assert_eq!(s.fields.x, "12.5");
    assert_eq!(s.fields.h, "abc");
    assert_eq!(s.fields.y, "0.0");
}

#[test]
fn parsable_text_updates_the_rect_component() {
    let mut s = session_with_record();
    s.edit_field(FieldId::XOffset, "12.5".to_string());
    let x = parse_field(&s.fields.x);
    s.eval_fields(x, None, None, None);
    let rec = s.current.unwrap();
    assert_eq!(rec.rect.x_offset, 12.5f32.to_bits());
    assert_eq!(rec.rect.y_offset, 2.0f32.to_bits());
}

#[test]
fn unparsable_text_leaves_the_component_unchanged() {
    let mut s = session_with_record();
    s.edit_field(FieldId::XOffset, "abc".to_string());
    let x = parse_field(&s.fields.x);
    assert!(x.is_none());
    s.eval_fields(x, None, None, None);
    assert_eq!(s.current.unwrap().rect.x_offset, 1.0f32.to_bits());
}

#[test]
fn evaluation_without_a_record_changes_nothing() {
    let mut s = EditSession::new();
    s.eval_fields(Some(9), Some(9), Some(9), Some(9));
    assert!(s.current.is_none());
}

#[test]
fn all_four_fields_evaluate_independently() {
    let mut s = session_with_record();
    s.eval_fields(
        parse_field("10"),
        parse_field("oops"),
        parse_field("-1.25"),
        parse_field(""),
    );
    let rec = s.current.unwrap();
    assert_eq!(rec.rect.x_offset, 10.0f32.to_bits());
    assert_eq!(rec.rect.y_offset, 2.0f32.to_bits());
    assert_eq!(rec.rect.width, (-1.25f32).to_bits());
    assert_eq!(rec.rect.height, 4.0f32.to_bits());
}
