use vstd::prelude::*;

use crate::hash::name_hash_spec;
use crate::kv::{contains_key, lemma_assoc_contains, lemma_assoc_index};
use crate::order::{
    lemma_stable_sort_contains, lemma_stable_sort_sorted, stable_sort_spec,
    Placed,
};
use crate::staging::{member_descs, member_file_pairs, ArchiveMember, FileImage};
use crate::workspace::{
    emit_members, files_after_flush, flush_files, fnames_after_flush, meta_names, meta_placed,
    repack_output, repack_placements, repacked_files, sidecar_name, store_after_flush,
    store_names, synth_placed, RepackMemberV, Workspace,
};

verus! {

/// No line is synthesized when every staged file is already described.
proof fn lemma_synth_all_known(names: Seq<Seq<char>>, known: Seq<Seq<char>>)
    requires
        forall|i: int| 0 <= i < names.len() ==> known.contains(#[trigger] names[i]),
    ensures
        synth_placed(names, known) == Seq::<Placed>::empty(),
    decreases names.len(),
{
    if names.len() > 0 {
        assert(forall|i: int|
            0 <= i < names.len() - 1 ==> known.contains(#[trigger] names.drop_last()[i]));
        lemma_synth_all_known(names.drop_last(), known);
        assert(known.contains(names.last()));
    }
}

/// A staged file the sidecar does not describe gets a line placed under the
/// legacy hash of its name.
proof fn lemma_synth_contains(names: Seq<Seq<char>>, known: Seq<Seq<char>>, q: int)
    requires
        0 <= q < names.len(),
        !known.contains(names[q]),
        names[q] != sidecar_name(),
    ensures
        synth_placed(names, known).contains(
            Placed { name: names[q], key: name_hash_spec(vstd::utf8::encode_utf8(names[q])) },
        ),
    decreases names.len(),
{
    let p = Placed { name: names[q], key: name_hash_spec(vstd::utf8::encode_utf8(names[q])) };
    if q == names.len() - 1 {
        let s = synth_placed(names, known);
        assert(s.last() == p);
    } else {
        assert(names.drop_last()[q] == names[q]);
        lemma_synth_contains(names.drop_last(), known, q);
        let front = synth_placed(names.drop_last(), known);
        let i = choose|i: int| 0 <= i < front.len() && front[i] == p;
        assert(synth_placed(names, known)[i] == p);
    }
}

/// Writing the tracked collections back keeps the file map's domain and the
/// directory order describing the same names.
proof fn lemma_flush_dom_names(
    files0: Map<Seq<char>, FileImage>,
    fnames0: Seq<Seq<char>>,
    snames: Seq<Seq<char>>,
    store: Map<Seq<char>, crate::model::CollectionView>,
)
    requires
        forall|n: Seq<char>| files0.dom().contains(n) <==> fnames0.contains(n),
    ensures
        forall|n: Seq<char>|
            flush_files(files0, fnames0, snames, store).0.dom().contains(n)
                <==> flush_files(files0, fnames0, snames, store).1.contains(n),
    decreases snames.len(),
{
    if snames.len() > 0 {
        lemma_flush_dom_names(files0, fnames0, snames.drop_last(), store);
        let r = flush_files(files0, fnames0, snames.drop_last(), store);
        let w = flush_files(files0, fnames0, snames, store);
        let n0 = snames.last();
        assert forall|n: Seq<char>| w.0.dom().contains(n) implies w.1.contains(n) by {
            assert(r.0.dom().contains(n) <==> r.1.contains(n));
            if n == n0 {
                if r.0.dom().contains(n0) {
                    let i = choose|i: int| 0 <= i < r.1.len() && r.1[i] == n0;
                    assert(w.1[i] == n0);
                } else {
                    assert(w.1.last() == n0);
                }
            } else {
                let i = choose|i: int| 0 <= i < r.1.len() && r.1[i] == n;
                assert(w.1[i] == n);
            }
        }
        assert forall|n: Seq<char>| w.1.contains(n) implies w.0.dom().contains(n) by {
            assert(r.0.dom().contains(n) <==> r.1.contains(n));
            let i = choose|i: int| 0 <= i < w.1.len() && w.1[i] == n;
            if i < r.1.len() {
                assert(r.1[i] == n);
            } else {
                assert(n == n0);
            }
        }
    }
}

/// When every placement's file exists, nothing is dropped: the repacked
/// members are the sorted placements themselves, with contiguous entry ids
/// `0..N-1` in order.
proof fn lemma_emit_total(sorted: Seq<Placed>, files: Map<Seq<char>, FileImage>)
    requires
        forall|i: int| 0 <= i < sorted.len() ==> files.dom().contains(#[trigger] sorted[i].name),
        sorted.len() <= u32::MAX,
    ensures
        emit_members(sorted, files).len() == sorted.len(),
        forall|i: int|
            0 <= i < sorted.len() ==> #[trigger] emit_members(sorted, files)[i]
                == (RepackMemberV {
                name: sorted[i].name,
                ordering_key: sorted[i].key,
                sequence_id: i as u32,
                data: files[sorted[i].name],
            }),
    decreases sorted.len(),
{
    if sorted.len() > 0 {
        assert(forall|i: int|
            0 <= i < sorted.len() - 1 ==> files.dom().contains(
                #[trigger] sorted.drop_last()[i].name,
            ));
        lemma_emit_total(sorted.drop_last(), files);
        assert(files.dom().contains(sorted.last().name));
    }
}

/// Every repacked member's file exists, and its content is that file's.
proof fn lemma_emit_reads_files(sorted: Seq<Placed>, files: Map<Seq<char>, FileImage>)
    ensures
        forall|e: int|
            0 <= e < emit_members(sorted, files).len() ==> files.dom().contains(
                #[trigger] emit_members(sorted, files)[e].name,
            ) && emit_members(sorted, files)[e].data == files[emit_members(
                sorted,
                files,
            )[e].name],
    decreases sorted.len(),
{
    if sorted.len() > 0 {
        lemma_emit_reads_files(sorted.drop_last(), files);
    }
}

/// A placement whose file exists becomes a repacked member carrying that
/// placement's name and key and the file's content.
proof fn lemma_emit_keeps(sorted: Seq<Placed>, files: Map<Seq<char>, FileImage>, i: int)
    requires
        0 <= i < sorted.len(),
        files.dom().contains(sorted[i].name),
    ensures
        exists|e: int|
            0 <= e < emit_members(sorted, files).len() && #[trigger] emit_members(
                sorted,
                files,
            )[e].name == sorted[i].name && emit_members(sorted, files)[e].ordering_key
                == sorted[i].key && emit_members(sorted, files)[e].data == files[sorted[i].name],
    decreases sorted.len(),
{
    let out = emit_members(sorted, files);
    if i == sorted.len() - 1 {
        assert(out[out.len() - 1].name == sorted[i].name);
    } else {
        assert(sorted.drop_last()[i] == sorted[i]);
        lemma_emit_keeps(sorted.drop_last(), files, i);
        let front = emit_members(sorted.drop_last(), files);
        let ghost target_name = sorted[i].name;
        let e = choose|e: int|
            0 <= e < front.len() && #[trigger] front[e].name == target_name
                && front[e].ordering_key == sorted[i].key && front[e].data
                == files[target_name];
        assert(out[e] == front[e]);
    }
}

/// The canonical repack of members whose staged files all hold their
/// original raw bytes: nothing is dropped, ids are contiguous by sorted
/// position, order is ascending by key, and every member keeps its bytes.
proof fn lemma_members_emit(
    members: Seq<ArchiveMember>,
    files: Map<Seq<char>, FileImage>,
    placed: Seq<Placed>,
)
    requires
        members.len() <= u32::MAX,
        placed.len() == members.len(),
        forall|q: int|
            0 <= q < members.len() ==> #[trigger] placed[q] == (Placed {
                name: members[q]@.name,
                key: members[q]@.ordering_key,
            }),
        forall|q: int|
            0 <= q < members.len() ==> files.dom().contains((#[trigger] members[q]@).name)
                && files[members[q]@.name] == FileImage::Raw(members[q]@.bytes),
    ensures
        ({
            let out = emit_members(stable_sort_spec(placed), files);
            &&& out.len() == members.len()
            &&& forall|i: int| 0 <= i < out.len() ==> #[trigger] out[i].sequence_id == i as u32
            &&& forall|i: int, j: int|
                0 <= i < j < out.len() ==> out[i].ordering_key <= out[j].ordering_key
            &&& forall|i: int|
                0 <= i < out.len() ==> exists|q: int|
                    0 <= q < members.len() && members[q]@.name == #[trigger] out[i].name
                        && out[i].ordering_key == members[q]@.ordering_key && out[i].data
                        == FileImage::Raw(members[q]@.bytes)
            &&& forall|q: int|
                0 <= q < members.len() ==> exists|i: int|
                    0 <= i < out.len() && #[trigger] out[i].name == (#[trigger] members[q]@).name
        }),
{
    let sorted = stable_sort_spec(placed);
    lemma_stable_sort_sorted(placed);
    crate::order::lemma_stable_sort_len(placed);
    assert forall|i: int| 0 <= i < sorted.len() implies files.dom().contains(
        #[trigger] sorted[i].name,
    ) && exists|q: int|
        0 <= q < members.len() && members[q]@.name == sorted[i].name && sorted[i].key
            == members[q]@.ordering_key by {
        lemma_stable_sort_contains(placed, sorted[i]);
        assert(placed.contains(sorted[i]));
        let q = choose|q: int| 0 <= q < placed.len() && placed[q] == sorted[i];
        assert(members[q]@.name == sorted[i].name);
    }
    lemma_emit_total(sorted, files);
    let out = emit_members(sorted, files);
    assert forall|i: int|
        0 <= i < out.len() implies exists|q: int|
        0 <= q < members.len() && members[q]@.name == #[trigger] out[i].name && out[i].ordering_key
            == members[q]@.ordering_key && out[i].data == FileImage::Raw(
            members[q]@.bytes,
        ) by {
        let q = choose|q: int|
            0 <= q < members.len() && members[q]@.name == sorted[i].name && sorted[i].key
                == members[q]@.ordering_key;
        assert(files[sorted[i].name] == FileImage::Raw(members[q]@.bytes));
    }
    assert forall|q: int| 0 <= q < members.len() implies exists|i: int|
        0 <= i < out.len() && #[trigger] out[i].name == (#[trigger] members[q]@).name by {
        let p = Placed { name: members[q]@.name, key: members[q]@.ordering_key };
        assert(placed[q] == p);
        assert(placed.contains(p));
        lemma_stable_sort_contains(placed, p);
        let i = choose|i: int| 0 <= i < sorted.len() && sorted[i] == p;
        assert(out[i].name == members[q]@.name);
    }
}

/// Opening an archive and repacking it with zero edits reproduces the same
/// member set in canonical order: entry ids are `0..N-1` ascending by
/// ordering key, and every member's content is its original raw bytes,
/// byte-identical.  `w` is a workspace fresh from opening `members` with
/// nothing loaded, selected or edited.
pub proof fn lemma_zero_edit_repack(w: Workspace, members: Seq<ArchiveMember>)
    requires
        w.wf(),
        forall|i: int, j: int|
            0 <= i < j < members.len() ==> members[i]@.name != members[j]@.name,
        members.len() <= u32::MAX,
        w.staging.meta_view() == member_descs(members),
        w.staging.file_pairs() == member_file_pairs(members),
        w.store.pairs().len() == 0,
        w.session.selected_name() is None,
    ensures
        ({
            let out = repack_output(w);
            &&& out.len() == members.len()
            &&& forall|i: int| 0 <= i < out.len() ==> #[trigger] out[i].sequence_id == i as u32
            &&& forall|i: int, j: int|
                0 <= i < j < out.len() ==> out[i].ordering_key <= out[j].ordering_key
            &&& forall|i: int|
                0 <= i < out.len() ==> exists|q: int|
                    0 <= q < members.len() && members[q]@.name == #[trigger] out[i].name
                        && out[i].ordering_key == members[q]@.ordering_key && out[i].data
                        == FileImage::Raw(members[q]@.bytes)
            &&& forall|q: int|
                0 <= q < members.len() ==> exists|i: int|
                    0 <= i < out.len() && #[trigger] out[i].name == (#[trigger] members[q]@).name
        }),
{
    let mv = w.staging.meta_view();
    let known = meta_names(mv);
    let files = w.staging.files_map();
    let fnames = w.staging.file_names();

    // no selection and no tracked collections: the staged files stay the
    // original raw members
    assert(store_names(w.store) =~= Seq::<Seq<char>>::empty());
    assert(repacked_files(w).0 == files);
    assert(repacked_files(w).1 == fnames);

    // every staged file is described by the sidecar, so nothing is
    // synthesized
    assert(fnames.len() == members.len());
    assert(known.len() == members.len());
    assert forall|i: int| 0 <= i < fnames.len() implies known.contains(
        #[trigger] fnames[i],
    ) by {
        assert(fnames[i] == members[i]@.name);
        assert(known[i] == members[i]@.name);
    }
    lemma_synth_all_known(fnames, known);
    let placed = repack_placements(w);
    assert(placed =~= meta_placed(mv));

    assert forall|q: int| 0 <= q < members.len() implies #[trigger] placed[q] == (Placed {
        name: members[q]@.name,
        key: members[q]@.ordering_key,
    }) by {
        assert(mv[q] == member_descs(members)[q]);
    }
    assert forall|q: int| 0 <= q < members.len() implies files.dom().contains(
        (#[trigger] members[q]@).name,
    ) && files[members[q]@.name] == FileImage::Raw(members[q]@.bytes) by {
        assert(w.staging.file_pairs()[q] == (members[q]@.name, FileImage::Raw(members[q]@.bytes)));
        lemma_assoc_index(w.staging.file_pairs(), q);
    }
    lemma_members_emit(members, files, placed);
    assert(repack_output(w) == emit_members(stable_sort_spec(placed), files));
}

/// A file present in the staging area at repack time but absent from the
/// sidecar appears in the output, placed under the legacy hash of its name
/// and carrying that file's content.
pub proof fn lemma_added_file_repacked(w: Workspace, n: Seq<char>)
    requires
        w.wf(),
        repacked_files(w).0.dom().contains(n),
        !meta_names(w.staging.meta_view()).contains(n),
        n != sidecar_name(),
    ensures
        exists|e: int|
            0 <= e < repack_output(w).len() && #[trigger] repack_output(w)[e].name == n
                && repack_output(w)[e].ordering_key == name_hash_spec(
                vstd::utf8::encode_utf8(n),
            ) && repack_output(w)[e].data == repacked_files(w).0[n],
{
    let files2 = repacked_files(w).0;
    let fnames2 = repacked_files(w).1;
    let known = meta_names(w.staging.meta_view());

    // the flushed file map and the flushed directory order agree
    assert forall|m: Seq<char>| files_after_flush(w).dom().contains(m)
        <==> fnames_after_flush(w).contains(m) by {
        lemma_assoc_contains(w.staging.file_pairs(), m);
        assert(contains_key(w.staging.file_pairs(), m) <==> w.staging.file_names().contains(
            m,
        )) by {
            if contains_key(w.staging.file_pairs(), m) {
                let i = choose|i: int|
                    0 <= i < w.staging.file_pairs().len() && w.staging.file_pairs()[i].0 == m;
                assert(w.staging.file_names()[i] == m);
            }
            if w.staging.file_names().contains(m) {
                let i = choose|i: int|
                    0 <= i < w.staging.file_names().len() && w.staging.file_names()[i] == m;
                assert(w.staging.file_pairs()[i].0 == m);
            }
        }
        match w.session.selected_name() {
            Some(sel) => {
                if m == sel {
                    if w.staging.files_map().dom().contains(sel) {
                    } else {
                        assert(fnames_after_flush(w).last() == sel);
                    }
                } else {
                    if fnames_after_flush(w).contains(m) {
                        let i = choose|i: int|
                            0 <= i < fnames_after_flush(w).len() && fnames_after_flush(w)[i]
                                == m;
                        if i < w.staging.file_names().len() {
                            assert(w.staging.file_names()[i] == m);
                        }
                    }
                    if w.staging.file_names().contains(m) {
                        let i = choose|i: int|
                            0 <= i < w.staging.file_names().len() && w.staging.file_names()[i]
                                == m;
                        assert(fnames_after_flush(w)[i] == m);
                    }
                }
            },
            None => {},
        }
    }
    lemma_flush_dom_names(
        files_after_flush(w),
        fnames_after_flush(w),
        store_names(w.store),
        store_after_flush(w),
    );
    assert(fnames2.contains(n));
    let q = choose|q: int| 0 <= q < fnames2.len() && fnames2[q] == n;
    lemma_synth_contains(fnames2, known, q);
    let p = Placed { name: n, key: name_hash_spec(vstd::utf8::encode_utf8(n)) };
    let placed = repack_placements(w);
    assert(placed.contains(p)) by {
        let s = synth_placed(fnames2, known);
        let l = choose|l: int| 0 <= l < s.len() && s[l] == p;
        assert(placed[meta_placed(w.staging.meta_view()).len() + l] == p);
    }
    lemma_stable_sort_contains(placed, p);
    let sorted = stable_sort_spec(placed);
    let i = choose|i: int| 0 <= i < sorted.len() && sorted[i] == p;
    lemma_emit_keeps(sorted, files2, i);
    assert(repack_output(w) == emit_members(sorted, files2));
    let out = emit_members(sorted, files2);
    let e = choose|e: int|
        0 <= e < out.len() && #[trigger] out[e].name == sorted[i].name && out[e].ordering_key
            == sorted[i].key && out[e].data == files2[sorted[i].name];
    assert(repack_output(w)[e].name == n);
    assert(repack_output(w)[e].ordering_key == name_hash_spec(vstd::utf8::encode_utf8(n)));
    assert(repack_output(w)[e].data == repacked_files(w).0[n]);
}

/// A member whose staged file is gone at repack time is simply absent from
/// the output; no other member is affected.
pub proof fn lemma_missing_file_absent(w: Workspace, n: Seq<char>)
    requires
        !repacked_files(w).0.dom().contains(n),
    ensures
        forall|e: int| 0 <= e < repack_output(w).len() ==> #[trigger] repack_output(w)[e].name
            != n,
{
    lemma_emit_reads_files(stable_sort_spec(repack_placements(w)), repacked_files(w).0);
}

} // verus!
