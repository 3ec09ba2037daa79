use vstd::prelude::*;

use crate::hash::{name_hash, name_hash_spec};
use crate::model::{
    has_kind, last_index_of_kind, zero_record, BoxCollection, BoxRecord, CollectionView,
};
use crate::order::{placed_of_desc, placed_seq, stable_sort_by_key, stable_sort_spec, Placed};
use crate::session::{BoxTarget, EditSession};
use crate::staging::{
    member_descs, member_file_pairs, ArchiveMember, FileData, FileImage, MemberDescV,
    MemberDescriptor, StagingArea,
};
use crate::store::{NameError, RecordStore};

verus! {

/// One member of the repacked archive, in final order: its name, its
/// placement key, its reassigned entry id, and the content whose bytes the
/// container codec receives — raw bytes as staged, or a collection for the
/// record codec to encode.
pub struct RepackMember {
    pub name: String,
    pub ordering_key: u32,
    pub sequence_id: u32,
    pub data: FileData,
}

/// The mathematical content of a repacked member.
pub struct RepackMemberV {
    pub name: Seq<char>,
    pub ordering_key: u32,
    pub sequence_id: u32,
    pub data: FileImage,
}

impl View for RepackMember {
    type V = RepackMemberV;

    open spec fn view(&self) -> RepackMemberV {
        RepackMemberV {
            name: self.name@,
            ordering_key: self.ordering_key,
            sequence_id: self.sequence_id,
            data: self.data@,
        }
    }
}

/// The views of a repacked member list, in order.
pub open spec fn repack_views(s: Seq<RepackMember>) -> Seq<RepackMemberV> {
    s.map_values(|m: RepackMember| m@)
}

/// The name of the sidecar file; never a member of the repacked archive.
pub open spec fn sidecar_name() -> Seq<char> {
    "meta.json"@
}

/// The placements the sidecar lines ask for, in sidecar order.
pub open spec fn meta_placed(meta: Seq<MemberDescV>) -> Seq<Placed> {
    meta.map_values(|d: MemberDescV| Placed { name: d.name, key: d.ordering_key })
}

/// The member names the sidecar describes, in sidecar order.
pub open spec fn meta_names(meta: Seq<MemberDescV>) -> Seq<Seq<char>> {
    meta.map_values(|d: MemberDescV| d.name)
}

/// The placements synthesized for staged files the sidecar does not
/// describe: each such file, except the sidecar itself, is placed under the
/// legacy hash of its name, in directory order.
pub open spec fn synth_placed(names: Seq<Seq<char>>, known: Seq<Seq<char>>) -> Seq<Placed>
    decreases names.len(),
{
    if names.len() == 0 {
        Seq::empty()
    } else {
        let front = synth_placed(names.drop_last(), known);
        let n = names.last();
        if !known.contains(n) && n != sidecar_name() {
            front.push(
                Placed { name: n, key: name_hash_spec(vstd::utf8::encode_utf8(n)) },
            )
        } else {
            front
        }
    }
}

/// The staged files after every tracked collection is written back to its
/// member file, in store order: the resulting file map and the resulting
/// directory order.
pub open spec fn flush_files(
    files0: Map<Seq<char>, FileImage>,
    fnames0: Seq<Seq<char>>,
    snames: Seq<Seq<char>>,
    store: Map<Seq<char>, CollectionView>,
) -> (Map<Seq<char>, FileImage>, Seq<Seq<char>>)
    decreases snames.len(),
{
    if snames.len() == 0 {
        (files0, fnames0)
    } else {
        let r = flush_files(files0, fnames0, snames.drop_last(), store);
        let n = snames.last();
        (
            r.0.insert(n, FileImage::Encoded(store[n])),
            if r.0.dom().contains(n) {
                r.1
            } else {
                r.1.push(n)
            },
        )
    }
}

/// The members of the repacked archive: the sorted placements in order,
/// each with its position as entry id and the staged file's content; a
/// placement whose file is gone is dropped, and the ids of the survivors
/// keep their pre-drop positions.
pub open spec fn emit_members(
    sorted: Seq<Placed>,
    files: Map<Seq<char>, FileImage>,
) -> Seq<RepackMemberV>
    decreases sorted.len(),
{
    if sorted.len() == 0 {
        Seq::empty()
    } else {
        let front = emit_members(sorted.drop_last(), files);
        let p = sorted.last();
        if files.dom().contains(p.name) {
            front.push(
                RepackMemberV {
                    name: p.name,
                    ordering_key: p.key,
                    sequence_id: (sorted.len() - 1) as u32,
                    data: files[p.name],
                },
            )
        } else {
            front
        }
    }
}

/// At most one placement is synthesized per staged file.
proof fn lemma_synth_len(names: Seq<Seq<char>>, known: Seq<Seq<char>>)
    ensures
        synth_placed(names, known).len() <= names.len(),
    decreases names.len(),
{
    if names.len() > 0 {
        lemma_synth_len(names.drop_last(), known);
    }
}

/// Writing the tracked collections back adds at most one file per
/// collection to the directory order.
proof fn lemma_flush_names_len(
    files0: Map<Seq<char>, FileImage>,
    fnames0: Seq<Seq<char>>,
    snames: Seq<Seq<char>>,
    store: Map<Seq<char>, CollectionView>,
)
    ensures
        flush_files(files0, fnames0, snames, store).1.len() <= fnames0.len() + snames.len(),
    decreases snames.len(),
{
    if snames.len() > 0 {
        lemma_flush_names_len(files0, fnames0, snames.drop_last(), store);
    }
}

/// A member file write handed to the caller: the record codec encodes
/// `coll` and writes it over the staged member file named `name`.  A write
/// that fails is fatal — an unwritable staging copy cannot be safely
/// continued from.
pub struct FlushOp {
    pub name: String,
    pub coll: BoxCollection,
}

/// One staged member with the outcome of feeding its bytes to the record
/// codec: the parsed collection, or `None` where the codec rejected them.
pub struct ParsedMember {
    pub name: String,
    pub outcome: Option<BoxCollection>,
}

/// The store after absorbing a list of parse outcomes: parsed members are
/// tracked under their names, rejected members are skipped so that one bad
/// member never blocks the rest.
pub open spec fn loaded_store(
    m0: Map<Seq<char>, CollectionView>,
    parsed: Seq<ParsedMember>,
) -> Map<Seq<char>, CollectionView>
    decreases parsed.len(),
{
    if parsed.len() == 0 {
        m0
    } else {
        let m = loaded_store(m0, parsed.drop_last());
        match parsed.last().outcome {
            Some(c) => m.insert(parsed.last().name@, c@),
            None => m,
        }
    }
}

/// The collection `c` with the working record written back into it: if a
/// record is targeted and its position still exists, that record's
/// rectangle becomes the working copy's rectangle; its kind and extra tag
/// are untouched.  Otherwise the collection is unchanged.
pub open spec fn synced_coll(
    c: CollectionView,
    target: Option<BoxTarget>,
    current: Option<BoxRecord>,
) -> CollectionView {
    match (target, current) {
        (Some(t), Some(rec)) => {
            if (t.kind as int) < c.boxes.len() && (t.index as int) < c.boxes[t.kind as int].len() {
                let g = c.boxes[t.kind as int];
                let prev = g[t.index as int];
                c.with_group(
                    t.kind as int,
                    g.update(
                        t.index as int,
                        BoxRecord { kind: prev.kind, rect: rec.rect, extra: prev.extra },
                    ),
                )
            } else {
                c
            }
        },
        _ => c,
    }
}

/// The store names of a record store, in storage order.
pub open spec fn store_names(s: RecordStore) -> Seq<Seq<char>> {
    s.pairs().map_values(|p: (Seq<char>, CollectionView)| p.0)
}

/// The tracked collections after the session's working record is written
/// back into the selected collection.
pub open spec fn store_after_flush(w: Workspace) -> Map<Seq<char>, CollectionView> {
    match w.session.selected_name() {
        Some(n) => w.store@.insert(
            n,
            synced_coll(w.store@[n], w.session.target, w.session.current),
        ),
        None => w.store@,
    }
}

/// The staged file map after the session flush alone.
pub open spec fn files_after_flush(w: Workspace) -> Map<Seq<char>, FileImage> {
    match w.session.selected_name() {
        Some(n) => w.staging.files_map().insert(
            n,
            FileImage::Encoded(synced_coll(w.store@[n], w.session.target, w.session.current)),
        ),
        None => w.staging.files_map(),
    }
}

/// The staged directory order after the session flush alone.
pub open spec fn fnames_after_flush(w: Workspace) -> Seq<Seq<char>> {
    match w.session.selected_name() {
        Some(n) => if w.staging.files_map().dom().contains(n) {
            w.staging.file_names()
        } else {
            w.staging.file_names().push(n)
        },
        None => w.staging.file_names(),
    }
}

/// The staged files a repack reads: after the session flush, every tracked
/// collection is written back to its member file, in store order.
pub open spec fn repacked_files(w: Workspace) -> (Map<Seq<char>, FileImage>, Seq<Seq<char>>) {
    flush_files(
        files_after_flush(w),
        fnames_after_flush(w),
        store_names(w.store),
        store_after_flush(w),
    )
}

/// The placements a repack sorts: the sidecar lines followed by a
/// synthesized line for every staged file the sidecar does not describe.
pub open spec fn repack_placements(w: Workspace) -> Seq<Placed> {
    meta_placed(w.staging.meta_view()) + synth_placed(
        repacked_files(w).1,
        meta_names(w.staging.meta_view()),
    )
}

/// The members a repack hands to the container codec, in final order.
pub open spec fn repack_output(w: Workspace) -> Seq<RepackMemberV> {
    emit_members(stable_sort_spec(repack_placements(w)), repacked_files(w).0)
}

/// The whole state of one open archive: its staging area, the tracked box
/// collections, the single live edit session, and the schema variant flag
/// (`extended` selects the variant whose records carry an extra tag).
pub struct Workspace {
    pub staging: StagingArea,
    pub store: RecordStore,
    pub session: EditSession,
    pub extended: bool,
}

impl Workspace {
    /// Well-formedness: staged file names and store names are unique, and a
    /// selected collection is always a tracked one.
    pub open spec fn wf(&self) -> bool {
        &&& self.staging.wf()
        &&& self.store.wf()
        &&& match self.session.selected_name() {
            Some(n) => self.store@.dom().contains(n),
            None => true,
        }
    }

    /// The view of the collection the session has selected.
    pub open spec fn selected_coll(&self) -> CollectionView
        recommends
            self.session.selected_name() is Some,
    {
        self.store@[self.session.selected_name()->Some_0]
    }

    /// Opens a decoded archive: stages its members, tracks no collections
    /// yet, and starts a fresh session.  Any previously open archive's
    /// workspace is simply replaced by the new value.
    pub fn open_file(base_name: String, members: Vec<ArchiveMember>, extended: bool) -> (w:
        Workspace)
        requires
            forall|i: int, j: int|
                0 <= i < j < members@.len() ==> members@[i]@.name != members@[j]@.name,
        ensures
            w.wf(),
            w.staging.base_name@ == base_name@,
            w.staging.meta_view() == member_descs(members@),
            w.staging.file_pairs() == member_file_pairs(members@),
            w.store@ == Map::<Seq<char>, CollectionView>::empty(),
            w.store.pairs().len() == 0,
            w.session.selected_name() == Option::<Seq<char>>::None,
            w.session.target == Option::<BoxTarget>::None,
            w.session.current == Option::<BoxRecord>::None,
            w.extended == extended,
    {
        Workspace {
            staging: StagingArea::stage(base_name, members),
            store: RecordStore::new(),
            session: EditSession::new(),
            extended,
        }
    }

    /// Absorbs the record codec's parse outcomes for the staged members:
    /// parsed collections are tracked under their member names, rejected
    /// ones are skipped.
    pub fn load(&mut self, parsed: Vec<ParsedMember>)
        requires
            old(self).wf(),
        ensures
            final(self).wf(),
            final(self).store@ == loaded_store(old(self).store@, parsed@),
            final(self).staging == old(self).staging,
            final(self).session == old(self).session,
            final(self).extended == old(self).extended,
    {
        let ghost input = parsed@;
        let mut parsed = parsed;
        while parsed.len() > 0
            invariant
                self.wf(),
                parsed@.len() <= input.len(),
                forall|i: int|
                    0 <= i < parsed@.len() ==> parsed@[i] == input[input.len() - parsed@.len()
                        + i],
                self.store@ == loaded_store(
                    old(self).store@,
                    input.take(input.len() - parsed@.len()),
                ),
                forall|n: Seq<char>|
                    old(self).store@.dom().contains(n) ==> self.store@.dom().contains(n),
                self.staging == old(self).staging,
                self.session == old(self).session,
                self.extended == old(self).extended,
            decreases parsed@.len(),
        {
            let ghost done = input.len() - parsed@.len();
            let p = parsed.remove(0);
            proof {
                assert(p == input[done]);
                assert(input.take(done + 1).drop_last() =~= input.take(done));
                assert(input.take(done + 1).last() == input[done]);
            }
            match p.outcome {
                Some(c) => {
                    self.store.insert(p.name, c);
                },
                None => {},
            }
        }
        proof {
            assert(input.take(input.len() as int) =~= input);
        }
    }

    /// Writes the session's working record back into the selected
    /// collection, records the member file's new content, and hands the
    /// caller the file write to perform.  With no selection nothing happens.
    fn flush_selected(&mut self) -> (r: Option<FlushOp>)
        requires
            old(self).wf(),
        ensures
            final(self).wf(),
            final(self).session == old(self).session,
            final(self).extended == old(self).extended,
            final(self).staging.base_name == old(self).staging.base_name,
            final(self).staging.meta == old(self).staging.meta,
            match old(self).session.selected_name() {
                None => {
                    &&& *final(self) == *old(self)
                    &&& r is None
                },
                Some(n) => {
                    let synced = synced_coll(
                        old(self).store@[n],
                        old(self).session.target,
                        old(self).session.current,
                    );
                    &&& final(self).store@ == old(self).store@.insert(n, synced)
                    &&& final(self).store.pairs().map_values(
                        |p: (Seq<char>, CollectionView)| p.0,
                    ) == old(self).store.pairs().map_values(
                        |p: (Seq<char>, CollectionView)| p.0,
                    )
                    &&& final(self).store.pairs().len() == old(self).store.pairs().len()
                    &&& final(self).staging.files_map() == old(self).staging.files_map().insert(
                        n,
                        FileImage::Encoded(synced),
                    )
                    &&& final(self).staging.file_names()
                        == if old(self).staging.files_map().dom().contains(n) {
                            old(self).staging.file_names()
                        } else {
                            old(self).staging.file_names().push(n)
                        }
                    &&& match r {
                        Some(op) => op.name@ == n && op.coll@ == synced,
                        None => false,
                    }
                },
            },
    {
        let sel = match &self.session.selected {
            Some(s) => s.clone(),
            None => {
                return None;
            },
        };
        let synced = match self.store.get(&sel) {
            Some(c) => {
                let mut copy = c.deep_copy();
                match (self.session.target, self.session.current) {
                    (Some(t), Some(rec)) => {
                        let kind = t.kind as usize;
                        if kind < copy.boxes.len() && t.index < copy.boxes[kind].len() {
                            let prev = copy.boxes[kind][t.index];
                            let group = &mut copy.boxes[kind];
                            let slot = &mut group[t.index];
                            *slot = BoxRecord { kind: prev.kind, rect: rec.rect, extra: prev.extra };
                            proof {
                                assert(copy@.boxes =~= synced_coll(
                                    old(self).store@[sel@],
                                    old(self).session.target,
                                    old(self).session.current,
                                ).boxes);
                            }
                        }
                        copy
                    },
                    _ => copy,
                }
            },
            None => unreached(),
        };
        let file_copy = synced.deep_copy();
        let op_copy = synced.deep_copy();
        self.store.insert(sel.clone(), synced);
        self.staging.set_file(sel.clone(), FileData::Encoded(file_copy));
        Some(FlushOp { name: sel, coll: op_copy })
    }

    /// Makes `name` the selected collection.  If another collection was
    /// selected, its working record is flushed to its member file first —
    /// the returned write must be performed before anything else — and the
    /// box selection is cleared.
    pub fn select_collection(&mut self, name: &String) -> (r: Option<FlushOp>)
        requires
            old(self).wf(),
            old(self).store@.dom().contains(name@),
        ensures
            final(self).wf(),
            final(self).session.selected_name() == Some(name@),
            final(self).session.target == Option::<BoxTarget>::None,
            final(self).session.current == Option::<BoxRecord>::None,
            final(self).session.fields == old(self).session.fields,
            final(self).session.pan_x == old(self).session.pan_x,
            final(self).session.pan_y == old(self).session.pan_y,
            final(self).extended == old(self).extended,
            final(self).staging.base_name == old(self).staging.base_name,
            final(self).staging.meta == old(self).staging.meta,
            match old(self).session.selected_name() {
                None => {
                    &&& final(self).store@ == old(self).store@
                    &&& final(self).staging.files_map() == old(self).staging.files_map()
                    &&& final(self).staging.file_names() == old(self).staging.file_names()
                    &&& r is None
                },
                Some(prev) => {
                    let synced = synced_coll(
                        old(self).store@[prev],
                        old(self).session.target,
                        old(self).session.current,
                    );
                    &&& final(self).store@ == old(self).store@.insert(prev, synced)
                    &&& final(self).staging.files_map() == old(self).staging.files_map().insert(
                        prev,
                        FileImage::Encoded(synced),
                    )
                    &&& final(self).staging.file_names()
                        == if old(self).staging.files_map().dom().contains(prev) {
                            old(self).staging.file_names()
                        } else {
                            old(self).staging.file_names().push(prev)
                        }
                    &&& match r {
                        Some(op) => op.name@ == prev && op.coll@ == synced,
                        None => false,
                    }
                },
            },
    {
        let r = self.flush_selected();
        self.session.selected = Some(name.clone());
        self.session.target = None;
        self.session.current = None;
        r
    }

    /// Selects the record at `index` within the selected collection's kind
    /// group `kind`, copies it as the working record, and stores the given
    /// renderings of its four rectangle components as the shadow fields.
    /// The caller renders the components; the library cannot format floats.
    pub fn select_record(
        &mut self,
        kind: u32,
        index: usize,
        x_text: String,
        y_text: String,
        w_text: String,
        h_text: String,
    )
        requires
            old(self).wf(),
            old(self).session.selected_name() is Some,
            (kind as int) < old(self).selected_coll().boxes.len(),
            (index as int) < old(self).selected_coll().boxes[kind as int].len(),
        ensures
            final(self).wf(),
            final(self).session.selected == old(self).session.selected,
            final(self).session.target == Some(BoxTarget { kind, index }),
            final(self).session.current == Some(
                old(self).selected_coll().boxes[kind as int][index as int],
            ),
            final(self).session.fields@.x == x_text@,
            final(self).session.fields@.y == y_text@,
            final(self).session.fields@.w == w_text@,
            final(self).session.fields@.h == h_text@,
            final(self).session.pan_x == old(self).session.pan_x,
            final(self).session.pan_y == old(self).session.pan_y,
            final(self).store == old(self).store,
            final(self).staging == old(self).staging,
            final(self).extended == old(self).extended,
    {
        let rec = match &self.session.selected {
            Some(sel) => {
                match self.store.get(sel) {
                    Some(c) => c.boxes[kind as usize][index],
                    None => unreached(),
                }
            },
            None => unreached(),
        };
        self.session.target = Some(BoxTarget { kind, index });
        self.session.current = Some(rec);
        self.session.fields.x = x_text;
        self.session.fields.y = y_text;
        self.session.fields.w = w_text;
        self.session.fields.h = h_text;
    }

    /// Appends a fresh zero record of kind `kind` to the selected
    /// collection's group for that kind; does nothing without a selection.
    /// Under the extended variant the record carries a zero extra tag.
    pub fn add_record(&mut self, kind: u32)
        requires
            old(self).wf(),
            match old(self).session.selected_name() {
                Some(_) => (kind as int) < old(self).selected_coll().boxes.len(),
                None => true,
            },
        ensures
            final(self).wf(),
            match old(self).session.selected_name() {
                None => *final(self) == *old(self),
                Some(n) => {
                    let c = old(self).store@[n];
                    &&& final(self).store@ == old(self).store@.insert(
                        n,
                        c.with_group(
                            kind as int,
                            c.boxes[kind as int].push(zero_record(kind, old(self).extended)),
                        ),
                    )
                    &&& final(self).staging == old(self).staging
                    &&& final(self).session == old(self).session
                    &&& final(self).extended == old(self).extended
                },
            },
    {
        let sel = match &self.session.selected {
            Some(s) => s.clone(),
            None => {
                return ;
            },
        };
        let mut copy = match self.store.get(&sel) {
            Some(c) => c.deep_copy(),
            None => unreached(),
        };
        copy.add_record(kind, self.extended);
        self.store.insert(sel, copy);
    }

    /// Removes the most recently added record of kind `kind` from the
    /// selected collection's group for that kind; does nothing without a
    /// selection or when the group holds no record of the kind.
    pub fn remove_record(&mut self, kind: u32)
        requires
            old(self).wf(),
            match old(self).session.selected_name() {
                Some(_) => (kind as int) < old(self).selected_coll().boxes.len(),
                None => true,
            },
        ensures
            final(self).wf(),
            match old(self).session.selected_name() {
                None => *final(self) == *old(self),
                Some(n) => {
                    let c = old(self).store@[n];
                    let g = c.boxes[kind as int];
                    &&& final(self).store@ == old(self).store@.insert(
                        n,
                        if has_kind(g, kind) {
                            c.with_group(kind as int, g.remove(last_index_of_kind(g, kind)))
                        } else {
                            c
                        },
                    )
                    &&& final(self).staging == old(self).staging
                    &&& final(self).session == old(self).session
                    &&& final(self).extended == old(self).extended
                },
            },
    {
        let sel = match &self.session.selected {
            Some(s) => s.clone(),
            None => {
                return ;
            },
        };
        let mut copy = match self.store.get(&sel) {
            Some(c) => c.deep_copy(),
            None => unreached(),
        };
        copy.remove_last_of_kind(kind);
        self.store.insert(sel, copy);
    }

    /// Appends a fresh zero hurtbox to the selected collection.
    pub fn add_hurtbox(&mut self)
        requires
            old(self).wf(),
            match old(self).session.selected_name() {
                Some(_) => 0 < old(self).selected_coll().boxes.len(),
                None => true,
            },
        ensures
            final(self).wf(),
            match old(self).session.selected_name() {
                None => *final(self) == *old(self),
                Some(n) => {
                    let c = old(self).store@[n];
                    &&& final(self).store@ == old(self).store@.insert(
                        n,
                        c.with_group(0, c.boxes[0].push(zero_record(0, old(self).extended))),
                    )
                    &&& final(self).staging == old(self).staging
                    &&& final(self).session == old(self).session
                    &&& final(self).extended == old(self).extended
                },
            },
    {
        self.add_record(0);
    }

    /// Appends a fresh zero hitbox to the selected collection.
    pub fn add_hitbox(&mut self)
        requires
            old(self).wf(),
            match old(self).session.selected_name() {
                Some(_) => 1 < old(self).selected_coll().boxes.len(),
                None => true,
            },
        ensures
            final(self).wf(),
            match old(self).session.selected_name() {
                None => *final(self) == *old(self),
                Some(n) => {
                    let c = old(self).store@[n];
                    &&& final(self).store@ == old(self).store@.insert(
                        n,
                        c.with_group(1, c.boxes[1].push(zero_record(1, old(self).extended))),
                    )
                    &&& final(self).staging == old(self).staging
                    &&& final(self).session == old(self).session
                    &&& final(self).extended == old(self).extended
                },
            },
    {
        self.add_record(1);
    }

    /// Removes the most recently added hurtbox of the selected collection.
    pub fn remove_hurtbox(&mut self)
        requires
            old(self).wf(),
            match old(self).session.selected_name() {
                Some(_) => 0 < old(self).selected_coll().boxes.len(),
                None => true,
            },
        ensures
            final(self).wf(),
            match old(self).session.selected_name() {
                None => *final(self) == *old(self),
                Some(n) => {
                    let c = old(self).store@[n];
                    let g = c.boxes[0];
                    &&& final(self).store@ == old(self).store@.insert(
                        n,
                        if has_kind(g, 0) {
                            c.with_group(0, g.remove(last_index_of_kind(g, 0)))
                        } else {
                            c
                        },
                    )
                    &&& final(self).staging == old(self).staging
                    &&& final(self).session == old(self).session
                    &&& final(self).extended == old(self).extended
                },
            },
    {
        self.remove_record(0);
    }

    /// Removes the most recently added hitbox of the selected collection.
    pub fn remove_hitbox(&mut self)
        requires
            old(self).wf(),
            match old(self).session.selected_name() {
                Some(_) => 1 < old(self).selected_coll().boxes.len(),
                None => true,
            },
        ensures
            final(self).wf(),
            match old(self).session.selected_name() {
                None => *final(self) == *old(self),
                Some(n) => {
                    let c = old(self).store@[n];
                    let g = c.boxes[1];
                    &&& final(self).store@ == old(self).store@.insert(
                        n,
                        if has_kind(g, 1) {
                            c.with_group(1, g.remove(last_index_of_kind(g, 1)))
                        } else {
                            c
                        },
                    )
                    &&& final(self).staging == old(self).staging
                    &&& final(self).session == old(self).session
                    &&& final(self).extended == old(self).extended
                },
            },
    {
        self.remove_record(1);
    }

    /// Renames an image of the selected collection, under the image name
    /// rules of the collection itself.
    pub fn rename_image(&mut self, index: usize, new_name: &String) -> (r: Result<
        (),
        crate::model::ImageError,
    >)
        requires
            old(self).wf(),
            old(self).session.selected_name() is Some,
        ensures
            final(self).wf(),
            final(self).staging == old(self).staging,
            final(self).session == old(self).session,
            final(self).extended == old(self).extended,
            ({
                let n = old(self).session.selected_name()->Some_0;
                let c = old(self).store@[n];
                match r {
                    Ok(()) => {
                        &&& (index as int) < c.names.len()
                        &&& 0 < new_name@.len()
                        &&& vstd::utf8::encode_utf8(new_name@).len() <= 32
                        &&& final(self).store@ == old(self).store@.insert(
                            n,
                            (CollectionView { names: c.names.update(0, new_name@), ..c }),
                        )
                    },
                    Err(crate::model::ImageError::NoSuchIndex) => {
                        &&& (index as int) >= c.names.len()
                        &&& final(self).store@ == old(self).store@
                    },
                    Err(crate::model::ImageError::TooLong) => {
                        &&& (index as int) < c.names.len()
                        &&& vstd::utf8::encode_utf8(new_name@).len() > 32
                        &&& final(self).store@ == old(self).store@
                    },
                    Err(crate::model::ImageError::Empty) => {
                        &&& (index as int) < c.names.len()
                        &&& new_name@.len() == 0
                        &&& final(self).store@ == old(self).store@
                    },
                }
            }),
    {
        let sel = match &self.session.selected {
            Some(s) => s.clone(),
            None => unreached(),
        };
        let mut copy = match self.store.get(&sel) {
            Some(c) => c.deep_copy(),
            None => unreached(),
        };
        let r = copy.rename_image(index, new_name);
        proof {
            if r is Err {
                assert(old(self).store@.insert(sel@, copy@) =~= old(self).store@) by {
                    assert(copy@ =~= old(self).store@[sel@]);
                }
            }
        }
        self.store.insert(sel, copy);
        r
    }

    /// Appends an image name to the selected collection.
    pub fn add_image(&mut self, name: &String) -> (r: Result<(), crate::model::ImageError>)
        requires
            old(self).wf(),
            old(self).session.selected_name() is Some,
        ensures
            final(self).wf(),
            final(self).staging == old(self).staging,
            final(self).session == old(self).session,
            final(self).extended == old(self).extended,
            ({
                let n = old(self).session.selected_name()->Some_0;
                let c = old(self).store@[n];
                match r {
                    Ok(()) => {
                        &&& 0 < name@.len()
                        &&& vstd::utf8::encode_utf8(name@).len() <= 32
                        &&& final(self).store@ == old(self).store@.insert(
                            n,
                            (CollectionView { names: c.names.push(name@), ..c }),
                        )
                    },
                    Err(crate::model::ImageError::TooLong) => {
                        &&& vstd::utf8::encode_utf8(name@).len() > 32
                        &&& final(self).store@ == old(self).store@
                    },
                    Err(crate::model::ImageError::Empty) => {
                        &&& name@.len() == 0
                        &&& final(self).store@ == old(self).store@
                    },
                    Err(crate::model::ImageError::NoSuchIndex) => false,
                }
            }),
    {
        let sel = match &self.session.selected {
            Some(s) => s.clone(),
            None => unreached(),
        };
        let mut copy = match self.store.get(&sel) {
            Some(c) => c.deep_copy(),
            None => unreached(),
        };
        let r = copy.add_image(name);
        proof {
            if r is Err {
                assert(old(self).store@.insert(sel@, copy@) =~= old(self).store@) by {
                    assert(copy@ =~= old(self).store@[sel@]);
                }
            }
        }
        self.store.insert(sel, copy);
        r
    }

    /// Removes the last image name of the selected collection; reports
    /// whether one was there.
    pub fn remove_image(&mut self) -> (r: bool)
        requires
            old(self).wf(),
            old(self).session.selected_name() is Some,
        ensures
            final(self).wf(),
            final(self).staging == old(self).staging,
            final(self).session == old(self).session,
            final(self).extended == old(self).extended,
            ({
                let n = old(self).session.selected_name()->Some_0;
                let c = old(self).store@[n];
                &&& r == (c.names.len() > 0)
                &&& r ==> final(self).store@ == old(self).store@.insert(
                    n,
                    (CollectionView { names: c.names.drop_last(), ..c }),
                )
                &&& !r ==> final(self).store@ == old(self).store@
            }),
    {
        let sel = match &self.session.selected {
            Some(s) => s.clone(),
            None => unreached(),
        };
        let mut copy = match self.store.get(&sel) {
            Some(c) => c.deep_copy(),
            None => unreached(),
        };
        let r = copy.remove_image();
        proof {
            if !r {
                assert(old(self).store@.insert(sel@, copy@) =~= old(self).store@) by {
                    assert(copy@ =~= old(self).store@[sel@]);
                }
            }
        }
        self.store.insert(sel, copy);
        r
    }

    /// Duplicates the selected collection under `new_name`, makes the copy
    /// the selected collection, and flushes it to a fresh member file — the
    /// returned write must be performed.  The name rules and the resulting
    /// independence of the copy are those of the record store's
    /// duplication.
    pub fn create_jonb(&mut self, new_name: &String) -> (r: Result<FlushOp, NameError>)
        requires
            old(self).wf(),
            old(self).session.selected_name() is Some,
        ensures
            final(self).wf(),
            final(self).extended == old(self).extended,
            final(self).staging.base_name == old(self).staging.base_name,
            final(self).staging.meta == old(self).staging.meta,
            match r {
                Ok(op) => {
                    let synced = synced_coll(
                        old(self).selected_coll(),
                        old(self).session.target,
                        old(self).session.current,
                    );
                    &&& 0 < new_name@.len()
                    &&& vstd::utf8::encode_utf8(new_name@).len() <= 32
                    &&& !old(self).store@.dom().contains(new_name@)
                    &&& final(self).store@ == old(self).store@.insert(new_name@, synced)
                    &&& final(self).staging.files_map() == old(self).staging.files_map().insert(
                        new_name@,
                        FileImage::Encoded(synced),
                    )
                    &&& final(self).session.selected_name() == Some(new_name@)
                    &&& final(self).session.target == old(self).session.target
                    &&& final(self).session.current == old(self).session.current
                    &&& final(self).session.fields == old(self).session.fields
                    &&& op.name@ == new_name@
                    &&& op.coll@ == synced
                },
                Err(NameError::TooLong) => {
                    &&& vstd::utf8::encode_utf8(new_name@).len() > 32
                    &&& *final(self) == *old(self)
                },
                Err(NameError::Empty) => {
                    &&& new_name@.len() == 0
                    &&& *final(self) == *old(self)
                },
                Err(NameError::AlreadyPresent) => {
                    &&& 0 < new_name@.len()
                    &&& vstd::utf8::encode_utf8(new_name@).len() <= 32
                    &&& old(self).store@.dom().contains(new_name@)
                    &&& *final(self) == *old(self)
                },
            },
    {
        let sel = match &self.session.selected {
            Some(s) => s.clone(),
            None => unreached(),
        };
        match self.store.duplicate_as_new(&sel, new_name) {
            Err(e) => Err(e),
            Ok(()) => {
                self.session.selected = Some(new_name.clone());
                let op = match self.flush_selected() {
                    Some(op) => op,
                    None => unreached(),
                };
                proof {
                    assert(self.store@ =~= old(self).store@.insert(
                        new_name@,
                        synced_coll(
                            old(self).selected_coll(),
                            old(self).session.target,
                            old(self).session.current,
                        ),
                    ));
                    assert(self.staging.files_map() =~= old(self).staging.files_map().insert(
                        new_name@,
                        FileImage::Encoded(
                            synced_coll(
                                old(self).selected_coll(),
                                old(self).session.target,
                                old(self).session.current,
                            ),
                        ),
                    ));
                }
                Ok(op)
            },
        }
    }

    /// Discards the open archive: empties the staging area and the store
    /// and starts a fresh session.  The schema variant flag is kept, as it
    /// is a user setting rather than archive state.
    pub fn reset(&mut self)
        ensures
            final(self).wf(),
            final(self).staging.base_name@ == Seq::<char>::empty(),
            final(self).staging.meta@.len() == 0,
            final(self).staging.file_pairs().len() == 0,
            final(self).store@ == Map::<Seq<char>, CollectionView>::empty(),
            final(self).store.pairs().len() == 0,
            final(self).session.selected_name() == Option::<Seq<char>>::None,
            final(self).session.target == Option::<BoxTarget>::None,
            final(self).session.current == Option::<BoxRecord>::None,
            final(self).extended == old(self).extended,
    {
        self.staging = StagingArea {
            base_name: String::new(),
            meta: Vec::new(),
            files: Vec::new(),
        };
        self.store = RecordStore::new();
        self.session = EditSession::new();
    }

    /// Reassembles the archive.  The session's working record is flushed,
    /// every tracked collection is written back to its member file, a
    /// sidecar line is synthesized for every staged file the sidecar does
    /// not describe — placed under the legacy hash of its name — all
    /// placements are sorted by ascending ordering key, stably, and entry
    /// ids are reassigned by sorted position.  The returned members carry,
    /// in final order, each placement whose staged file still exists,
    /// together with its content; a placement whose file is gone is simply
    /// dropped.  The caller encodes the members with the container codec.
    pub fn write_pac(&mut self) -> (r: Vec<RepackMember>)
        requires
            old(self).wf(),
            old(self).staging.meta@.len() + old(self).staging.file_pairs().len()
                + old(self).store.pairs().len() + 1 <= u32::MAX,
        ensures
            final(self).wf(),
            final(self).session == old(self).session,
            final(self).extended == old(self).extended,
            final(self).staging.base_name == old(self).staging.base_name,
            final(self).staging.meta == old(self).staging.meta,
            final(self).store@ == store_after_flush(*old(self)),
            final(self).staging.files_map() == repacked_files(*old(self)).0,
            final(self).staging.file_names() == repacked_files(*old(self)).1,
            repack_views(r@) == repack_output(*old(self)),
    {
        let ghost w0 = *old(self);
        let _flushed = self.flush_selected();
        let ghost files1 = files_after_flush(w0);
        let ghost fnames1 = fnames_after_flush(w0);
        let ghost snames = store_names(w0.store);
        let ghost store1 = store_after_flush(w0);
        proof {
            assert(self.store@ == store1);
            assert(self.staging.files_map() == files1);
            assert(self.staging.file_names() == fnames1);
            assert(store_names(self.store) =~= snames);
        }
        let ghost st1 = self.store;
        let count = self.store.len();
        let mut i: usize = 0;
        while i < count
            invariant
                self.wf(),
                self.store == st1,
                st1@ == store1,
                store_names(st1) == snames,
                count == st1.pairs().len(),
                i <= count,
                count == snames.len(),
                self.staging.files_map() == flush_files(
                    files1,
                    fnames1,
                    snames.take(i as int),
                    store1,
                ).0,
                self.staging.file_names() == flush_files(
                    files1,
                    fnames1,
                    snames.take(i as int),
                    store1,
                ).1,
                self.staging.base_name == w0.staging.base_name,
                self.staging.meta == w0.staging.meta,
                self.session == w0.session,
                self.extended == w0.extended,
            decreases count - i,
        {
            let pair = self.store.entry_at(i);
            let member_name = pair.0.clone();
            let coll_copy = pair.1.deep_copy();
            proof {
                assert(st1.pairs()[i as int].0 == snames[i as int]);
                assert(st1@[snames[i as int]] == coll_copy@);
                assert(snames.take(i + 1).drop_last() =~= snames.take(i as int));
                assert(snames.take(i + 1).last() == snames[i as int]);
            }
            self.staging.set_file(member_name, FileData::Encoded(coll_copy));
            i = i + 1;
        }
        proof {
            assert(snames.take(snames.len() as int) =~= snames);
        }
        let ghost files2 = repacked_files(w0).0;
        let ghost fnames2 = repacked_files(w0).1;
        let ghost stg2 = self.staging;
        let ghost mv = self.staging.meta_view();
        let ghost known = meta_names(mv);

        // copy the sidecar lines, tracking the highest entry id
        let mut descs: Vec<MemberDescriptor> = Vec::new();
        let mut max_id: u32 = 0;
        let mlen = self.staging.meta.len();
        let mut k: usize = 0;
        while k < mlen
            invariant
                self.staging == stg2,
                mv == stg2.meta_view(),
                k <= mlen,
                mlen == stg2.meta@.len(),
                descs@.len() == k,
                forall|l: int| 0 <= l < k ==> descs@[l]@ == stg2.meta@[l]@,
            decreases mlen - k,
        {
            let d = self.staging.meta[k].duplicate();
            if d.sequence_id > max_id {
                max_id = d.sequence_id;
            }
            descs.push(d);
            k = k + 1;
        }
        proof {
            assert(placed_seq(descs@) =~= meta_placed(mv));
            assert(forall|l: int| 0 <= l < mlen ==> descs@[l]@.name == known[l]);
        }

        // synthesize lines for staged files the sidecar does not describe
        let sidecar: String = "meta.json".to_owned();
        let fcount = self.staging.file_count();
        let mut j: usize = 0;
        while j < fcount
            invariant
                self.staging == stg2,
                self.staging.wf(),
                mv == stg2.meta_view(),
                known == meta_names(mv),
                mlen == mv.len(),
                fnames2 == stg2.file_names(),
                fcount == stg2.file_pairs().len(),
                fcount == fnames2.len(),
                j <= fcount,
                sidecar@ == sidecar_name(),
                descs@.len() >= mlen,
                placed_seq(descs@) == meta_placed(mv) + synth_placed(
                    fnames2.take(j as int),
                    known,
                ),
                forall|l: int| 0 <= l < mlen ==> descs@[l]@.name == known[l],
                forall|l: int|
                    mlen <= l < descs@.len() ==> exists|q: int|
                        0 <= q < j && #[trigger] descs@[l]@.name == fnames2[q],
            decreases fcount - j,
        {
            let nm = self.staging.file_name_at(j);
            let dlen = descs.len();
            let mut found = false;
            let mut fidx: usize = 0;
            let mut l: usize = 0;
            while l < dlen
                invariant
                    dlen == descs@.len(),
                    l <= dlen,
                    !found ==> forall|q: int| 0 <= q < l ==> descs@[q].name@ != nm@,
                    found ==> fidx < dlen && descs@[fidx as int].name@ == nm@,
                decreases dlen - l,
            {
                if descs[l].name == *nm {
                    found = true;
                    fidx = l;
                    l = dlen;
                } else {
                    l = l + 1;
                }
            }
            let is_side = *nm == sidecar;
            proof {
                assert(nm@ == fnames2[j as int]);
                assert(fnames2.take(j + 1).drop_last() =~= fnames2.take(j as int));
                assert(fnames2.take(j + 1).last() == fnames2[j as int]);
                if found {
                    if fidx >= mlen {
                        let q = choose|q: int|
                            0 <= q < j && descs@[fidx as int]@.name == fnames2[q];
                        assert(stg2.file_pairs()[q].0 == fnames2[q]);
                        assert(stg2.file_pairs()[j as int].0 == fnames2[j as int]);
                        assert(false);
                    } else {
                        assert(known[fidx as int] == nm@);
                        assert(known.contains(nm@));
                    }
                } else {
                    if known.contains(nm@) {
                        let q = choose|q: int| 0 <= q < known.len() && known[q] == nm@;
                        assert(descs@[q]@.name == nm@);
                        assert(false);
                    }
                }
            }
            if !found && !is_side {
                let key = name_hash(nm.as_str().as_bytes());
                let new_id = if max_id == u32::MAX {
                    u32::MAX
                } else {
                    max_id + 1
                };
                max_id = new_id;
                let synth_name = nm.clone();
                let ghost descs0 = descs@;
                descs.push(
                    MemberDescriptor { name: synth_name, ordering_key: key, sequence_id: new_id },
                );
                proof {
                    assert(placed_seq(descs@) =~= meta_placed(mv) + synth_placed(
                        fnames2.take(j + 1),
                        known,
                    )) by {
                        assert(placed_seq(descs@) =~= placed_seq(descs0).push(
                            Placed {
                                name: nm@,
                                key: name_hash_spec(vstd::utf8::encode_utf8(nm@)),
                            },
                        ));
                    }
                }
            } else {
                proof {
                    assert(synth_placed(fnames2.take(j + 1), known) == synth_placed(
                        fnames2.take(j as int),
                        known,
                    ));
                }
            }
            j = j + 1;
        }
        proof {
            assert(fnames2.take(fnames2.len() as int) =~= fnames2);
            assert(placed_seq(descs@) == repack_placements(w0));
        }
        let ghost placed_all = repack_placements(w0);
        let ghost sortedp = stable_sort_spec(placed_all);

        // canonical order; entry ids are reassigned by sorted position
        let sorted_descs = stable_sort_by_key(descs);
        proof {
            lemma_synth_len(fnames2, known);
            lemma_flush_names_len(files1, fnames1, snames, store1);
            crate::order::lemma_stable_sort_stable(placed_all, 0);
            assert(sortedp.len() == placed_all.len()) by {
                crate::order::lemma_stable_sort_len(placed_all);
            }
            assert(placed_all.len() <= u32::MAX);
        }

        // read each member's current content; a missing file drops the member
        let mut out: Vec<RepackMember> = Vec::new();
        let total = sorted_descs.len();
        let mut e: usize = 0;
        while e < total
            invariant
                self.staging == stg2,
                self.staging.wf(),
                files2 == stg2.files_map(),
                total == sorted_descs@.len(),
                placed_seq(sorted_descs@) == sortedp,
                total <= u32::MAX,
                e <= total,
                repack_views(out@) == emit_members(sortedp.take(e as int), files2),
            decreases total - e,
        {
            let d = &sorted_descs[e];
            let ghost out0 = out@;
            proof {
                assert(sortedp.take(e + 1).drop_last() =~= sortedp.take(e as int));
                assert(sortedp.take(e + 1).last() == sortedp[e as int]);
                assert(sortedp[e as int] == placed_of_desc(sorted_descs@[e as int]@));
            }
            match self.staging.get_file(&d.name) {
                Some(fd) => {
                    let item = RepackMember {
                        name: d.name.clone(),
                        ordering_key: d.ordering_key,
                        sequence_id: e as u32,
                        data: fd.duplicate(),
                    };
                    out.push(item);
                    proof {
                        assert(repack_views(out@) =~= emit_members(
                            sortedp.take(e + 1),
                            files2,
                        )) by {
                            assert(repack_views(out@) =~= repack_views(out0).push(
                                RepackMemberV {
                                    name: sortedp[e as int].name,
                                    ordering_key: sortedp[e as int].key,
                                    sequence_id: e as u32,
                                    data: files2[sortedp[e as int].name],
                                },
                            ));
                        }
                    }
                },
                None => {
                    proof {
                        assert(emit_members(sortedp.take(e + 1), files2) == emit_members(
                            sortedp.take(e as int),
                            files2,
                        ));
                    }
                },
            }
            e = e + 1;
        }
        proof {
            assert(sortedp.take(sortedp.len() as int) =~= sortedp);
        }
        out
    }
}

} // verus!
