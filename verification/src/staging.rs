use vstd::prelude::*;

use crate::kv::{
    assoc_map, contains_key, key_index, lemma_assoc_contains, lemma_assoc_index,
    lemma_assoc_push, lemma_assoc_remove, lemma_assoc_update, unique_keys,
};
use crate::model::{BoxCollection, CollectionView};

verus! {

/// One member of a decoded archive: its name, its placement key and entry id
/// from the container's entry list, and its raw bytes.
pub struct ArchiveMember {
    pub name: String,
    pub ordering_key: u32,
    pub sequence_id: u32,
    pub bytes: Vec<u8>,
}

/// The mathematical content of an archive member.
pub struct ArchiveMemberV {
    pub name: Seq<char>,
    pub ordering_key: u32,
    pub sequence_id: u32,
    pub bytes: Seq<u8>,
}

impl View for ArchiveMember {
    type V = ArchiveMemberV;

    open spec fn view(&self) -> ArchiveMemberV {
        ArchiveMemberV {
            name: self.name@,
            ordering_key: self.ordering_key,
            sequence_id: self.sequence_id,
            bytes: self.bytes@,
        }
    }
}

/// One line of the sidecar metadata: a member name with the placement key
/// and entry id it had in the opened archive.
pub struct MemberDescriptor {
    pub name: String,
    pub ordering_key: u32,
    pub sequence_id: u32,
}

/// The mathematical content of a sidecar line.
pub struct MemberDescV {
    pub name: Seq<char>,
    pub ordering_key: u32,
    pub sequence_id: u32,
}

impl View for MemberDescriptor {
    type V = MemberDescV;

    open spec fn view(&self) -> MemberDescV {
        MemberDescV {
            name: self.name@,
            ordering_key: self.ordering_key,
            sequence_id: self.sequence_id,
        }
    }
}

impl MemberDescriptor {
    /// An owned copy of this descriptor.
    pub fn duplicate(&self) -> (r: MemberDescriptor)
        ensures
            r@ == self@,
    {
        MemberDescriptor {
            name: self.name.clone(),
            ordering_key: self.ordering_key,
            sequence_id: self.sequence_id,
        }
    }
}

/// The content of one staged member file.  A file extracted from the archive
/// or dropped into the staging directory by hand holds raw bytes; a file
/// written by a flush holds the collection whose encoding the file carries —
/// the record codec that turns it into bytes runs outside the library.
pub enum FileData {
    Raw(Vec<u8>),
    Encoded(BoxCollection),
}

/// The mathematical content of a staged file.
pub enum FileImage {
    Raw(Seq<u8>),
    Encoded(CollectionView),
}

impl View for FileData {
    type V = FileImage;

    open spec fn view(&self) -> FileImage {
        match self {
            FileData::Raw(b) => FileImage::Raw(b@),
            FileData::Encoded(c) => FileImage::Encoded(c@),
        }
    }
}

impl FileData {
    /// An owned copy of this file content.
    pub fn duplicate(&self) -> (r: FileData)
        ensures
            r@ == self@,
    {
        match self {
            FileData::Raw(b) => {
                let copy = b.clone();
                proof {
                    assert(copy@ =~= b@);
                }
                FileData::Raw(copy)
            },
            FileData::Encoded(c) => FileData::Encoded(c.deep_copy()),
        }
    }
}

/// One member file of the staging directory.
pub struct StagedFile {
    pub name: String,
    pub data: FileData,
}

/// The sidecar line a staged archive member gives rise to.
pub open spec fn desc_of_member(m: ArchiveMemberV) -> MemberDescV {
    MemberDescV { name: m.name, ordering_key: m.ordering_key, sequence_id: m.sequence_id }
}

/// The sidecar lines of a member list, in order.
pub open spec fn member_descs(s: Seq<ArchiveMember>) -> Seq<MemberDescV> {
    s.map_values(|m: ArchiveMember| desc_of_member(m@))
}

/// The staged (name, content) pairs of a member list, in order.
pub open spec fn member_file_pairs(s: Seq<ArchiveMember>) -> Seq<(Seq<char>, FileImage)> {
    s.map_values(|m: ArchiveMember| (m@.name, FileImage::Raw(m@.bytes)))
}

/// The working area of one opened archive: the archive's base name, the
/// sidecar metadata snapshotted from its entry list, and the staged member
/// files.  Exactly one staging area exists per open archive; opening another
/// archive replaces it.
pub struct StagingArea {
    pub base_name: String,
    pub meta: Vec<MemberDescriptor>,
    pub files: Vec<StagedFile>,
}

impl StagingArea {
    /// The staged files as (name, content) pairs, in directory order.
    pub open spec fn file_pairs(&self) -> Seq<(Seq<char>, FileImage)> {
        self.files@.map_values(|f: StagedFile| (f.name@, f.data@))
    }

    /// The staged files as a map from name to content.
    pub open spec fn files_map(&self) -> Map<Seq<char>, FileImage> {
        assoc_map(self.file_pairs())
    }

    /// The staged file names, in directory order.
    pub open spec fn file_names(&self) -> Seq<Seq<char>> {
        self.file_pairs().map_values(|p: (Seq<char>, FileImage)| p.0)
    }

    /// The sidecar lines as views, in sidecar order.
    pub open spec fn meta_view(&self) -> Seq<MemberDescV> {
        self.meta@.map_values(|d: MemberDescriptor| d@)
    }

    /// Each staged file name occurs once.
    pub open spec fn wf(&self) -> bool {
        unique_keys(self.file_pairs())
    }

    /// Extracts a decoded archive into a fresh staging area: one raw member
    /// file per archive member, and a sidecar line per member recording its
    /// name, placement key and entry id.  Member names are the identities of
    /// the staged files, so they must be distinct.
    pub fn stage(base_name: String, members: Vec<ArchiveMember>) -> (r: StagingArea)
        requires
            forall|i: int, j: int|
                0 <= i < j < members@.len() ==> members@[i]@.name != members@[j]@.name,
        ensures
            r.base_name@ == base_name@,
            r.meta_view() == member_descs(members@),
            r.file_pairs() == member_file_pairs(members@),
            r.wf(),
    {
        let ghost input = members@;
        let mut members = members;
        let mut meta: Vec<MemberDescriptor> = Vec::new();
        let mut files: Vec<StagedFile> = Vec::new();
        while members.len() > 0
            invariant
                members@ =~= input.skip(input.len() - members@.len()),
                members@.len() <= input.len(),
                forall|i: int, j: int|
                    0 <= i < j < input.len() ==> input[i]@.name != input[j]@.name,
                meta@.len() == input.len() - members@.len(),
                files@.len() == input.len() - members@.len(),
                forall|i: int|
                    0 <= i < meta@.len() ==> meta@[i]@ == desc_of_member(input[i]@),
                forall|i: int|
                    0 <= i < files@.len() ==> files@[i].name@ == input[i]@.name
                        && files@[i].data@ == FileImage::Raw(input[i]@.bytes),
            decreases members@.len(),
        {
            let ghost done = input.len() - members@.len();
            let m = members.remove(0);
            proof {
                assert(m == input[done]);
                assert(members@ =~= input.skip(done + 1));
            }
            let file_name = m.name.clone();
            meta.push(MemberDescriptor {
                name: m.name,
                ordering_key: m.ordering_key,
                sequence_id: m.sequence_id,
            });
            files.push(StagedFile { name: file_name, data: FileData::Raw(m.bytes) });
        }
        let r = StagingArea { base_name, meta, files };
        proof {
            assert(r.meta_view() =~= member_descs(input));
            assert(r.file_pairs() =~= member_file_pairs(input));
            assert(r.wf()) by {
                assert(forall|i: int|
                    0 <= i < input.len() ==> r.file_pairs()[i].0 == input[i]@.name);
            }
        }
        r
    }

    /// The number of staged files.
    pub fn file_count(&self) -> (r: usize)
        ensures
            r == self.file_pairs().len(),
    {
        self.files.len()
    }

    /// The name of the staged file at directory position `i`.
    pub fn file_name_at(&self, i: usize) -> (r: &String)
        requires
            i < self.file_pairs().len(),
        ensures
            r@ == self.file_names()[i as int],
    {
        &self.files[i].name
    }

    /// The position of `name` among the staged files, if present.
    fn find(&self, name: &String) -> (r: Option<usize>)
        ensures
            match r {
                Some(i) => i < self.file_pairs().len() && self.file_pairs()[i as int].0
                    == name@,
                None => !contains_key(self.file_pairs(), name@),
            },
    {
        let mut i: usize = 0;
        while i < self.files.len()
            invariant
                i <= self.file_pairs().len(),
                forall|j: int| 0 <= j < i ==> self.file_pairs()[j].0 != name@,
            decreases self.file_pairs().len() - i,
        {
            if self.files[i].name == *name {
                return Some(i);
            }
            i = i + 1;
        }
        None
    }

    /// The content of the staged file named `name`, if it exists.
    pub fn get_file(&self, name: &String) -> (r: Option<&FileData>)
        requires
            self.wf(),
        ensures
            match r {
                Some(d) => self.files_map().dom().contains(name@) && d@
                    == self.files_map()[name@],
                None => !self.files_map().dom().contains(name@),
            },
    {
        proof {
            lemma_assoc_contains(self.file_pairs(), name@);
        }
        match self.find(name) {
            Some(i) => {
                proof {
                    lemma_assoc_index(self.file_pairs(), i as int);
                }
                Some(&self.files[i].data)
            },
            None => None,
        }
    }

    /// Writes `data` as the content of the staged file named `name`,
    /// overwriting a file already there or creating a fresh one at the end
    /// of the directory order.
    pub fn set_file(&mut self, name: String, data: FileData)
        requires
            old(self).wf(),
        ensures
            final(self).wf(),
            final(self).files_map() == old(self).files_map().insert(name@, data@),
            final(self).file_names() == if old(self).files_map().dom().contains(name@) {
                old(self).file_names()
            } else {
                old(self).file_names().push(name@)
            },
            final(self).base_name == old(self).base_name,
            final(self).meta == old(self).meta,
    {
        proof {
            lemma_assoc_contains(self.file_pairs(), name@);
        }
        match self.find(&name) {
            Some(i) => {
                proof {
                    lemma_assoc_update(self.file_pairs(), i as int, data@);
                }
                let e = &mut self.files[i];
                *e = StagedFile { name, data };
                proof {
                    assert(self.file_pairs() =~= old(self).file_pairs().update(
                        i as int,
                        (old(self).file_pairs()[i as int].0, data@),
                    ));
                    assert(self.file_names() =~= old(self).file_names());
                }
            },
            None => {
                proof {
                    lemma_assoc_push(self.file_pairs(), name@, data@);
                }
                self.files.push(StagedFile { name, data });
                proof {
                    assert(self.file_pairs() =~= old(self).file_pairs().push((name@, data@)));
                    assert(self.file_names() =~= old(self).file_names().push(name@));
                }
            },
        }
    }

    /// Records a file that appeared in the staging directory outside the
    /// library's own writes — a member added by hand.
    pub fn add_staged_file(&mut self, name: String, bytes: Vec<u8>)
        requires
            old(self).wf(),
        ensures
            final(self).wf(),
            final(self).files_map() == old(self).files_map().insert(
                name@,
                FileImage::Raw(bytes@),
            ),
            final(self).file_names() == if old(self).files_map().dom().contains(name@) {
                old(self).file_names()
            } else {
                old(self).file_names().push(name@)
            },
            final(self).base_name == old(self).base_name,
            final(self).meta == old(self).meta,
    {
        self.set_file(name, FileData::Raw(bytes));
    }

    /// Records that the staged file named `name` is gone from the staging
    /// directory — a member deleted by hand.  Returns whether it was there.
    pub fn remove_staged_file(&mut self, name: &String) -> (r: bool)
        requires
            old(self).wf(),
        ensures
            final(self).wf(),
            r == old(self).files_map().dom().contains(name@),
            final(self).files_map() == old(self).files_map().remove(name@),
            r ==> final(self).file_pairs() == old(self).file_pairs().remove(
                key_index(old(self).file_pairs(), name@),
            ),
            !r ==> final(self).file_pairs() == old(self).file_pairs(),
            final(self).base_name == old(self).base_name,
            final(self).meta == old(self).meta,
    {
        proof {
            lemma_assoc_contains(self.file_pairs(), name@);
        }
        match self.find(name) {
            Some(i) => {
                proof {
                    lemma_assoc_remove(self.file_pairs(), i as int);
                    assert(i as int == key_index(old(self).file_pairs(), name@)) by {
                        let k = key_index(old(self).file_pairs(), name@);
                        assert(old(self).file_pairs()[i as int].0 == name@);
                        if k != i as int {
                            assert(old(self).file_pairs()[k].0 == name@);
                        }
                    }
                }
                self.files.remove(i);
                proof {
                    assert(self.file_pairs() =~= old(self).file_pairs().remove(i as int));
                }
                true
            },
            None => {
                proof {
                    assert(old(self).files_map().remove(name@) =~= old(self).files_map());
                }
                false
            },
        }
    }
}

} // verus!
