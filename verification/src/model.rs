use vstd::prelude::*;

verus! {

/// The rectangle of one collision box.  The four components are the bit
/// patterns of 32-bit floats: the editor never computes with them, it only
/// parses text into them and round-trips them through the record codec, so
/// the library carries them as opaque 32-bit patterns.
#[derive(Clone, Copy, PartialEq, Eq, Structural, Debug)]
pub struct Rect {
    pub x_offset: u32,
    pub y_offset: u32,
    pub width: u32,
    pub height: u32,
}

/// One collision box entry: a kind tag, its rectangle, and an extra tag that
/// is present exactly under the extended schema variant.
#[derive(Clone, Copy, PartialEq, Eq, Structural, Debug)]
pub struct BoxRecord {
    pub kind: u32,
    pub rect: Rect,
    pub extra: Option<u8>,
}

/// The enumerated box kinds the editor distinguishes.
#[derive(Clone, Copy, PartialEq, Eq, Structural, Debug)]
pub enum BoxKind {
    Hurtbox,
    Hitbox,
    ExPoint,
    ExRect,
    ExVector,
    Push,
    TempCenter,
    Neck,
    Abdominal,
    AttackVsPush,
    SpGuard,
    RLeg,
    LLeg,
    Private0,
    Private1,
    Private2,
    Private3,
    ExtendJon,
}

/// The numeric tag of a box kind, as stored in box records and used to index
/// the kind groups of a collection.
pub open spec fn kind_tag(k: BoxKind) -> u32 {
    match k {
        BoxKind::Hurtbox => 0,
        BoxKind::Hitbox => 1,
        BoxKind::ExPoint => 2,
        BoxKind::ExRect => 3,
        BoxKind::ExVector => 4,
        BoxKind::Push => 5,
        BoxKind::TempCenter => 6,
        BoxKind::Neck => 7,
        BoxKind::Abdominal => 8,
        BoxKind::AttackVsPush => 9,
        BoxKind::SpGuard => 10,
        BoxKind::RLeg => 11,
        BoxKind::LLeg => 12,
        BoxKind::Private0 => 13,
        BoxKind::Private1 => 14,
        BoxKind::Private2 => 15,
        BoxKind::Private3 => 16,
        BoxKind::ExtendJon => 17,
    }
}

/// The box kind a numeric tag denotes, or `None` for an unknown tag.
pub open spec fn kind_of_tag(v: u32) -> Option<BoxKind> {
    if v == 0 {
        Some(BoxKind::Hurtbox)
    } else if v == 1 {
        Some(BoxKind::Hitbox)
    } else if v == 2 {
        Some(BoxKind::ExPoint)
    } else if v == 3 {
        Some(BoxKind::ExRect)
    } else if v == 4 {
        Some(BoxKind::ExVector)
    } else if v == 5 {
        Some(BoxKind::Push)
    } else if v == 6 {
        Some(BoxKind::TempCenter)
    } else if v == 7 {
        Some(BoxKind::Neck)
    } else if v == 8 {
        Some(BoxKind::Abdominal)
    } else if v == 9 {
        Some(BoxKind::AttackVsPush)
    } else if v == 10 {
        Some(BoxKind::SpGuard)
    } else if v == 11 {
        Some(BoxKind::RLeg)
    } else if v == 12 {
        Some(BoxKind::LLeg)
    } else if v == 13 {
        Some(BoxKind::Private0)
    } else if v == 14 {
        Some(BoxKind::Private1)
    } else if v == 15 {
        Some(BoxKind::Private2)
    } else if v == 16 {
        Some(BoxKind::Private3)
    } else if v == 17 {
        Some(BoxKind::ExtendJon)
    } else {
        None
    }
}

impl BoxKind {
    /// The numeric tag of this kind.
    pub fn as_u32(self) -> (r: u32)
        ensures
            r == kind_tag(self),
    {
        match self {
            BoxKind::Hurtbox => 0,
            BoxKind::Hitbox => 1,
            BoxKind::ExPoint => 2,
            BoxKind::ExRect => 3,
            BoxKind::ExVector => 4,
            BoxKind::Push => 5,
            BoxKind::TempCenter => 6,
            BoxKind::Neck => 7,
            BoxKind::Abdominal => 8,
            BoxKind::AttackVsPush => 9,
            BoxKind::SpGuard => 10,
            BoxKind::RLeg => 11,
            BoxKind::LLeg => 12,
            BoxKind::Private0 => 13,
            BoxKind::Private1 => 14,
            BoxKind::Private2 => 15,
            BoxKind::Private3 => 16,
            BoxKind::ExtendJon => 17,
        }
    }

    /// The kind a numeric tag denotes; unknown tags are rejected.
    pub fn try_from_u32(v: u32) -> (r: Option<BoxKind>)
        ensures
            r == kind_of_tag(v),
    {
        if v == 0 {
            Some(BoxKind::Hurtbox)
        } else if v == 1 {
            Some(BoxKind::Hitbox)
        } else if v == 2 {
            Some(BoxKind::ExPoint)
        } else if v == 3 {
            Some(BoxKind::ExRect)
        } else if v == 4 {
            Some(BoxKind::ExVector)
        } else if v == 5 {
            Some(BoxKind::Push)
        } else if v == 6 {
            Some(BoxKind::TempCenter)
        } else if v == 7 {
            Some(BoxKind::Neck)
        } else if v == 8 {
            Some(BoxKind::Abdominal)
        } else if v == 9 {
            Some(BoxKind::AttackVsPush)
        } else if v == 10 {
            Some(BoxKind::SpGuard)
        } else if v == 11 {
            Some(BoxKind::RLeg)
        } else if v == 12 {
            Some(BoxKind::LLeg)
        } else if v == 13 {
            Some(BoxKind::Private0)
        } else if v == 14 {
            Some(BoxKind::Private1)
        } else if v == 15 {
            Some(BoxKind::Private2)
        } else if v == 16 {
            Some(BoxKind::Private3)
        } else if v == 17 {
            Some(BoxKind::ExtendJon)
        } else {
            None
        }
    }
}

/// The parsed in-memory form of one member's box data: the ordered image name
/// list, the schema version, an opaque editor blob that is round-tripped and
/// never interpreted, and the box records grouped by kind tag (group `k`
/// holds the records of kind `k`).
pub struct BoxCollection {
    pub names: Vec<String>,
    pub version: u16,
    pub editor_data: Vec<Vec<u8>>,
    pub boxes: Vec<Vec<BoxRecord>>,
}

/// The mathematical content of a collection.
pub struct CollectionView {
    pub names: Seq<Seq<char>>,
    pub version: u16,
    pub editor_data: Seq<Seq<u8>>,
    pub boxes: Seq<Seq<BoxRecord>>,
}

impl View for BoxCollection {
    type V = CollectionView;

    open spec fn view(&self) -> CollectionView {
        CollectionView {
            names: self.names@.map_values(|s: String| s@),
            version: self.version,
            editor_data: self.editor_data@.map_values(|b: Vec<u8>| b@),
            boxes: self.boxes@.map_values(|g: Vec<BoxRecord>| g@),
        }
    }
}

impl CollectionView {
    /// This collection with the kind group at `k` replaced by `g`.
    pub open spec fn with_group(self, k: int, g: Seq<BoxRecord>) -> CollectionView {
        CollectionView { boxes: self.boxes.update(k, g), ..self }
    }
}

/// A fresh record of the given kind: zero rectangle, and a zero extra tag
/// exactly under the extended schema variant.
pub open spec fn zero_record(kind: u32, extended: bool) -> BoxRecord {
    BoxRecord {
        kind,
        rect: Rect { x_offset: 0, y_offset: 0, width: 0, height: 0 },
        extra: if extended {
            Some(0u8)
        } else {
            None
        },
    }
}

/// The largest index of a record of kind `kind` in `g`, or `-1` if none.
pub open spec fn last_index_of_kind(g: Seq<BoxRecord>, kind: u32) -> int
    decreases g.len(),
{
    if g.len() == 0 {
        -1
    } else if g.last().kind == kind {
        g.len() - 1
    } else {
        last_index_of_kind(g.drop_last(), kind)
    }
}

/// Whether `g` holds some record of kind `kind`.
pub open spec fn has_kind(g: Seq<BoxRecord>, kind: u32) -> bool {
    exists|i: int| 0 <= i < g.len() && g[i].kind == kind
}

/// `last_index_of_kind` is the largest matching index, and exists exactly
/// when some record of the kind does.
pub proof fn lemma_last_index_of_kind(g: Seq<BoxRecord>, kind: u32)
    ensures
        -1 <= last_index_of_kind(g, kind) < g.len(),
        has_kind(g, kind) <==> 0 <= last_index_of_kind(g, kind),
        has_kind(g, kind) ==> g[last_index_of_kind(g, kind)].kind == kind,
        forall|j: int| last_index_of_kind(g, kind) < j < g.len() ==> g[j].kind != kind,
    decreases g.len(),
{
    if g.len() == 0 {
    } else if g.last().kind == kind {
    } else {
        lemma_last_index_of_kind(g.drop_last(), kind);
        if has_kind(g, kind) {
            let i = choose|i: int| 0 <= i < g.len() && g[i].kind == kind;
            assert(g.drop_last()[i].kind == kind);
        }
        if has_kind(g.drop_last(), kind) {
            let i = choose|i: int|
                0 <= i < g.drop_last().len() && g.drop_last()[i].kind == kind;
            assert(g[i].kind == kind);
        }
        assert forall|j: int| last_index_of_kind(g, kind) < j < g.len() implies g[j].kind
            != kind by {
            if j < g.len() - 1 {
                assert(g.drop_last()[j].kind != kind);
            } else {
                assert(g[j] == g.last());
            }
        }
    }
}

/// Why an image-list edit was rejected.
#[derive(Clone, Copy, PartialEq, Eq, Structural, Debug)]
pub enum ImageError {
    /// No image exists at the chosen index.
    NoSuchIndex,
    /// The image name is empty.
    Empty,
    /// The image name is longer than 32 bytes, the width of a name field in
    /// the record format.
    TooLong,
}

/// A name encodes to no bytes exactly when it has no characters.
proof fn lemma_encoded_len_zero_iff(s: Seq<char>)
    ensures
        (vstd::utf8::encode_utf8(s).len() == 0) <==> (s.len() == 0),
{
    if s.len() > 0 {
        assert(vstd::utf8::encode_scalar(s[0] as u32).len() >= 1);
    }
}

/// Adding a record of some kind and then removing the most recently added
/// record of that kind returns the collection to its original content: the
/// fresh record sits at the end of its group, so the backwards search finds
/// it first.  This holds for every collection, whether or not the group
/// already held records of that kind.
pub proof fn lemma_add_remove_round_trip(c: CollectionView, kind: u32, extended: bool)
    requires
        (kind as int) < c.boxes.len(),
    ensures
        ({
            let added = c.with_group(
                kind as int,
                c.boxes[kind as int].push(zero_record(kind, extended)),
            );
            let g = added.boxes[kind as int];
            &&& has_kind(g, kind)
            &&& added.with_group(kind as int, g.remove(last_index_of_kind(g, kind))) == c
        }),
{
    let g0 = c.boxes[kind as int];
    let g = g0.push(zero_record(kind, extended));
    let added = c.with_group(kind as int, g);
    assert(g[g.len() - 1].kind == kind);
    assert(last_index_of_kind(g, kind) == g.len() - 1);
    assert(g.remove(g.len() - 1) =~= g0);
    assert(added.with_group(kind as int, g.remove(last_index_of_kind(g, kind))).boxes
        =~= c.boxes);
}

impl BoxCollection {
    /// Appends a fresh zero record of kind `kind` to that kind's group.
    pub fn add_record(&mut self, kind: u32, extended: bool)
        requires
            (kind as int) < old(self).boxes@.len(),
        ensures
            final(self)@ == old(self)@.with_group(
                kind as int,
                old(self)@.boxes[kind as int].push(zero_record(kind, extended)),
            ),
    {
        let record = BoxRecord {
            kind,
            rect: Rect { x_offset: 0, y_offset: 0, width: 0, height: 0 },
            extra: if extended {
                Some(0u8)
            } else {
                None
            },
        };
        let group = &mut self.boxes[kind as usize];
        group.push(record);
        proof {
            assert(final(self)@.boxes =~= old(self)@.with_group(
                kind as int,
                old(self)@.boxes[kind as int].push(zero_record(kind, extended)),
            ).boxes);
        }
    }

    /// Removes the most recently added record of kind `kind` from its group,
    /// searching from the end; leaves the collection unchanged if the group
    /// holds no record of that kind.
    pub fn remove_last_of_kind(&mut self, kind: u32)
        requires
            (kind as int) < old(self).boxes@.len(),
        ensures
            final(self)@ == if has_kind(old(self)@.boxes[kind as int], kind) {
                old(self)@.with_group(
                    kind as int,
                    old(self)@.boxes[kind as int].remove(
                        last_index_of_kind(old(self)@.boxes[kind as int], kind),
                    ),
                )
            } else {
                old(self)@
            },
    {
        let ghost g0 = old(self)@.boxes[kind as int];
        let mut i: usize = self.boxes[kind as usize].len();
        let mut found: bool = false;
        let mut idx: usize = 0;
        while i > 0 && !found
            invariant
                *self == *old(self),
                (kind as int) < self.boxes@.len(),
                g0 == self@.boxes[kind as int],
                i <= g0.len(),
                !found ==> forall|j: int| i <= j < g0.len() ==> g0[j].kind != kind,
                found ==> idx < g0.len() && g0[idx as int].kind == kind
                    && forall|j: int| idx < j < g0.len() ==> g0[j].kind != kind,
            decreases i,
        {
            i = i - 1;
            if self.boxes[kind as usize][i].kind == kind {
                found = true;
                idx = i;
            }
        }
        proof {
            lemma_last_index_of_kind(g0, kind);
        }
        if found {
            proof {
                assert(idx as int == last_index_of_kind(g0, kind));
            }
            let group = &mut self.boxes[kind as usize];
            group.remove(idx);
            proof {
                assert(final(self)@.boxes =~= old(self)@.with_group(
                    kind as int,
                    g0.remove(last_index_of_kind(g0, kind)),
                ).boxes);
            }
        } else {
            proof {
                assert(!has_kind(g0, kind));
                assert(final(self)@ =~= old(self)@);
            }
        }
    }

    /// Renames an image.  The index must pick an existing image and the
    /// new name must be non-empty and at most 32 bytes.  The index chooses
    /// which name's text is offered for editing; the write itself always
    /// lands on the first name of the list.  An invalid index is reported
    /// before a bad name.
    pub fn rename_image(&mut self, index: usize, new_name: &String) -> (r: Result<
        (),
        ImageError,
    >)
        ensures
            final(self)@.version == old(self)@.version,
            final(self)@.editor_data == old(self)@.editor_data,
            final(self)@.boxes == old(self)@.boxes,
            match r {
                Ok(()) => {
                    &&& (index as int) < old(self)@.names.len()
                    &&& 0 < new_name@.len()
                    &&& vstd::utf8::encode_utf8(new_name@).len() <= 32
                    &&& final(self)@.names == old(self)@.names.update(0, new_name@)
                },
                Err(ImageError::NoSuchIndex) => {
                    &&& (index as int) >= old(self)@.names.len()
                    &&& final(self)@.names == old(self)@.names
                },
                Err(ImageError::TooLong) => {
                    &&& (index as int) < old(self)@.names.len()
                    &&& vstd::utf8::encode_utf8(new_name@).len() > 32
                    &&& final(self)@.names == old(self)@.names
                },
                Err(ImageError::Empty) => {
                    &&& (index as int) < old(self)@.names.len()
                    &&& new_name@.len() == 0
                    &&& final(self)@.names == old(self)@.names
                },
            },
    {
        if index >= self.names.len() {
            return Err(ImageError::NoSuchIndex);
        }
        let byte_len = new_name.as_str().as_bytes().len();
        if byte_len > 32 {
            return Err(ImageError::TooLong);
        }
        proof {
            lemma_encoded_len_zero_iff(new_name@);
        }
        if byte_len == 0 {
            return Err(ImageError::Empty);
        }
        let slot = &mut self.names[0];
        *slot = new_name.clone();
        proof {
            assert(final(self)@.names =~= old(self)@.names.update(0, new_name@));
        }
        Ok(())
    }

    /// Appends an image name; it must be non-empty and at most 32 bytes.
    pub fn add_image(&mut self, name: &String) -> (r: Result<(), ImageError>)
        ensures
            final(self)@.version == old(self)@.version,
            final(self)@.editor_data == old(self)@.editor_data,
            final(self)@.boxes == old(self)@.boxes,
            match r {
                Ok(()) => {
                    &&& 0 < name@.len()
                    &&& vstd::utf8::encode_utf8(name@).len() <= 32
                    &&& final(self)@.names == old(self)@.names.push(name@)
                },
                Err(ImageError::TooLong) => {
                    &&& vstd::utf8::encode_utf8(name@).len() > 32
                    &&& final(self)@.names == old(self)@.names
                },
                Err(ImageError::Empty) => {
                    &&& name@.len() == 0
                    &&& final(self)@.names == old(self)@.names
                },
                Err(ImageError::NoSuchIndex) => false,
            },
    {
        let byte_len = name.as_str().as_bytes().len();
        if byte_len > 32 {
            return Err(ImageError::TooLong);
        }
        proof {
            lemma_encoded_len_zero_iff(name@);
        }
        if byte_len == 0 {
            return Err(ImageError::Empty);
        }
        self.names.push(name.clone());
        proof {
            assert(final(self)@.names =~= old(self)@.names.push(name@));
        }
        Ok(())
    }

    /// Removes the last image name, if any; reports whether one was there.
    pub fn remove_image(&mut self) -> (r: bool)
        ensures
            final(self)@.version == old(self)@.version,
            final(self)@.editor_data == old(self)@.editor_data,
            final(self)@.boxes == old(self)@.boxes,
            r == (old(self)@.names.len() > 0),
            r ==> final(self)@.names == old(self)@.names.drop_last(),
            !r ==> final(self)@.names == old(self)@.names,
    {
        if self.names.len() == 0 {
            return false;
        }
        self.names.pop();
        proof {
            assert(final(self)@.names =~= old(self)@.names.drop_last());
        }
        true
    }

    /// A deep copy: every name, blob and record is duplicated, so later
    /// mutation of the copy cannot affect the original.
    pub fn deep_copy(&self) -> (r: BoxCollection)
        ensures
            r@ == self@,
    {
        let names = self.names.clone();
        let editor_data = self.editor_data.clone();
        let boxes = self.boxes.clone();
        proof {
            assert(names@.map_values(|s: String| s@) =~= self.names@.map_values(
                |s: String| s@,
            )) by {
                assert(forall|i: int|
                    0 <= i < self.names@.len() ==> names@[i]@ == self.names@[i]@);
            }
            assert(editor_data@.map_values(|b: Vec<u8>| b@) =~= self.editor_data@.map_values(
                |b: Vec<u8>| b@,
            )) by {
                assert(forall|i: int|
                    0 <= i < self.editor_data@.len() ==> editor_data@[i]@ == self.editor_data@[i]@);
            }
            assert(boxes@.map_values(|g: Vec<BoxRecord>| g@) =~= self.boxes@.map_values(
                |g: Vec<BoxRecord>| g@,
            )) by {
                assert(forall|i: int|
                    0 <= i < self.boxes@.len() ==> boxes@[i]@ == self.boxes@[i]@);
            }
        }
        BoxCollection { names, version: self.version, editor_data, boxes }
    }
}

} // verus!
