use vstd::prelude::*;

use crate::model::{BoxRecord, Rect};

verus! {

/// The bit pattern of the default horizontal view anchor (the 32-bit float
/// `640.0`).  The canvas pan offset is view state only and is never
/// persisted; the library stores it as opaque float bit patterns.
pub const DEFAULT_PAN_X_BITS: u32 = 0x4420_0000;

/// The bit pattern of the default vertical view anchor (the 32-bit float
/// `802.0`).
pub const DEFAULT_PAN_Y_BITS: u32 = 0x4448_8000;

/// Which shadow field a text edit addresses.
#[derive(Clone, Copy, PartialEq, Eq, Structural, Debug)]
pub enum FieldId {
    XOffset,
    YOffset,
    Width,
    Height,
}

/// The four text fields shadowing the selected record's rectangle.  They
/// hold whatever the user last typed; only text that parses as a 32-bit
/// float ever reaches the rectangle itself.
pub struct ShadowFields {
    pub x: String,
    pub y: String,
    pub w: String,
    pub h: String,
}

/// The mathematical content of the shadow fields.
pub struct ShadowFieldsV {
    pub x: Seq<char>,
    pub y: Seq<char>,
    pub w: Seq<char>,
    pub h: Seq<char>,
}

impl View for ShadowFields {
    type V = ShadowFieldsV;

    open spec fn view(&self) -> ShadowFieldsV {
        ShadowFieldsV { x: self.x@, y: self.y@, w: self.w@, h: self.h@ }
    }
}

impl Default for ShadowFields {
    /// Fresh shadow fields all reading `0.0`.
    fn default() -> (r: ShadowFields)
        ensures
            r@.x == "0.0"@,
            r@.y == "0.0"@,
            r@.w == "0.0"@,
            r@.h == "0.0"@,
    {
        ShadowFields {
            x: "0.0".to_owned(),
            y: "0.0".to_owned(),
            w: "0.0".to_owned(),
            h: "0.0".to_owned(),
        }
    }
}

/// The selected box within the selected collection: its kind tag, and its
/// index within that kind's group.
#[derive(Clone, Copy, PartialEq, Eq, Structural, Debug)]
pub struct BoxTarget {
    pub kind: u32,
    pub index: usize,
}

/// The single live edit target of the open archive.  At most one collection
/// is selected at a time, and within it at most one record; the shadow
/// fields carry the pending textual edits of that record's rectangle.
pub struct EditSession {
    /// The name of the selected collection, if any.
    pub selected: Option<String>,
    /// The selected record within the selected collection, if any.
    pub target: Option<BoxTarget>,
    /// The working copy of the selected record; its rectangle absorbs the
    /// shadow-field evaluations until the next flush writes it back.
    pub current: Option<BoxRecord>,
    /// The pending textual edits.
    pub fields: ShadowFields,
    /// Horizontal pan offset of the canvas, as a float bit pattern.
    pub pan_x: u32,
    /// Vertical pan offset of the canvas, as a float bit pattern.
    pub pan_y: u32,
}

impl EditSession {
    /// The selected collection name as a character sequence, if any.
    pub open spec fn selected_name(&self) -> Option<Seq<char>> {
        match self.selected {
            Some(ref s) => Some(s@),
            None => None,
        }
    }

    /// A fresh session: nothing selected, zeroed shadow fields, the pan at
    /// its default anchor.
    pub fn new() -> (r: EditSession)
        ensures
            r.selected_name() == Option::<Seq<char>>::None,
            r.target == Option::<BoxTarget>::None,
            r.current == Option::<BoxRecord>::None,
            r.fields@.x == "0.0"@,
            r.fields@.y == "0.0"@,
            r.fields@.w == "0.0"@,
            r.fields@.h == "0.0"@,
            r.pan_x == DEFAULT_PAN_X_BITS,
            r.pan_y == DEFAULT_PAN_Y_BITS,
    {
        EditSession {
            selected: None,
            target: None,
            current: None,
            fields: ShadowFields::default(),
            pan_x: DEFAULT_PAN_X_BITS,
            pan_y: DEFAULT_PAN_Y_BITS,
        }
    }

    /// Stores the raw text of one shadow field; nothing else changes.  The
    /// text is kept verbatim whether or not it parses.
    pub fn edit_field(&mut self, which: FieldId, text: String)
        ensures
            final(self).fields@ == match which {
                FieldId::XOffset => ShadowFieldsV { x: text@, ..old(self).fields@ },
                FieldId::YOffset => ShadowFieldsV { y: text@, ..old(self).fields@ },
                FieldId::Width => ShadowFieldsV { w: text@, ..old(self).fields@ },
                FieldId::Height => ShadowFieldsV { h: text@, ..old(self).fields@ },
            },
            final(self).selected == old(self).selected,
            final(self).target == old(self).target,
            final(self).current == old(self).current,
            final(self).pan_x == old(self).pan_x,
            final(self).pan_y == old(self).pan_y,
    {
        match which {
            FieldId::XOffset => self.fields.x = text,
            FieldId::YOffset => self.fields.y = text,
            FieldId::Width => self.fields.w = text,
            FieldId::Height => self.fields.h = text,
        }
    }

    /// One evaluation pass over the shadow fields.  Each argument carries
    /// the float parse of the corresponding field's text as a bit pattern:
    /// `Some` updates that component of the working record's rectangle,
    /// `None` — text that did not parse — leaves the previous value in
    /// place, silently.  Without a working record nothing changes.
    pub fn eval_fields(
        &mut self,
        x: Option<u32>,
        y: Option<u32>,
        w: Option<u32>,
        h: Option<u32>,
    )
        ensures
            final(self).current == match old(self).current {
                Some(rec) => Some(
                    BoxRecord {
                        rect: Rect {
                            x_offset: match x { Some(b) => b, None => rec.rect.x_offset },
                            y_offset: match y { Some(b) => b, None => rec.rect.y_offset },
                            width: match w { Some(b) => b, None => rec.rect.width },
                            height: match h { Some(b) => b, None => rec.rect.height },
                        },
                        ..rec
                    },
                ),
                None => None,
            },
            final(self).selected == old(self).selected,
            final(self).target == old(self).target,
            final(self).fields == old(self).fields,
            final(self).pan_x == old(self).pan_x,
            final(self).pan_y == old(self).pan_y,
    {
        match self.current {
            Some(rec) => {
                let updated = BoxRecord {
                    rect: Rect {
                        x_offset: match x { Some(b) => b, None => rec.rect.x_offset },
                        y_offset: match y { Some(b) => b, None => rec.rect.y_offset },
                        width: match w { Some(b) => b, None => rec.rect.width },
                        height: match h { Some(b) => b, None => rec.rect.height },
                    },
                    ..rec
                };
                self.current = Some(updated);
            },
            None => {},
        }
    }

    /// Moves the canvas pan to the given float bit patterns; the canvas
    /// computes them, the session only keeps them.
    pub fn set_pan(&mut self, x_bits: u32, y_bits: u32)
        ensures
            final(self).pan_x == x_bits,
            final(self).pan_y == y_bits,
            final(self).selected == old(self).selected,
            final(self).target == old(self).target,
            final(self).current == old(self).current,
            final(self).fields == old(self).fields,
    {
        self.pan_x = x_bits;
        self.pan_y = y_bits;
    }

    /// Resets the canvas pan to the default anchor.
    pub fn reset_pan(&mut self)
        ensures
            final(self).pan_x == DEFAULT_PAN_X_BITS,
            final(self).pan_y == DEFAULT_PAN_Y_BITS,
            final(self).selected == old(self).selected,
            final(self).target == old(self).target,
            final(self).current == old(self).current,
            final(self).fields == old(self).fields,
    {
        self.pan_x = DEFAULT_PAN_X_BITS;
        self.pan_y = DEFAULT_PAN_Y_BITS;
    }
}

} // verus!
