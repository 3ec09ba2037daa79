use vstd::prelude::*;

use crate::kv::{
    assoc_map, contains_key, lemma_assoc_contains, lemma_assoc_index, lemma_assoc_push,
    lemma_assoc_remove, lemma_assoc_update, unique_keys,
};
use crate::model::{BoxCollection, CollectionView};

verus! {

/// A name encodes to no bytes exactly when it has no characters.
proof fn lemma_encoded_len_zero_iff(s: Seq<char>)
    ensures
        (vstd::utf8::encode_utf8(s).len() == 0) <==> (s.len() == 0),
{
    if s.len() > 0 {
        assert(vstd::utf8::encode_scalar(s[0] as u32).len() >= 1);
    }
}

/// Why a name for a duplicated collection was rejected.
#[derive(Clone, Copy, PartialEq, Eq, Structural, Debug)]
pub enum NameError {
    /// The new name is empty.
    Empty,
    /// The new name is longer than 32 bytes, the width of a name field in
    /// the record format.
    TooLong,
    /// A collection of that name already exists.
    AlreadyPresent,
}

/// One tracked collection under its member file base name.
pub struct StoreEntry {
    pub name: String,
    pub coll: BoxCollection,
}

/// The parsed box collections of the staged members, keyed by member file
/// base name.  The name is the sole identity of a collection; key order is
/// irrelevant, so the store is specified as a map.
pub struct RecordStore {
    entries: Vec<StoreEntry>,
}

impl RecordStore {
    /// The entries as (name, content) pairs, in storage order.
    pub closed spec fn pairs(&self) -> Seq<(Seq<char>, CollectionView)> {
        self.entries@.map_values(|e: StoreEntry| (e.name@, e.coll@))
    }

    /// Every collection is stored under exactly one name.
    pub open spec fn wf(&self) -> bool {
        unique_keys(self.pairs())
    }
}

impl View for RecordStore {
    type V = Map<Seq<char>, CollectionView>;

    open spec fn view(&self) -> Map<Seq<char>, CollectionView> {
        assoc_map(self.pairs())
    }
}

impl RecordStore {
    /// An empty store.
    pub fn new() -> (r: RecordStore)
        ensures
            r@ == Map::<Seq<char>, CollectionView>::empty(),
            r.wf(),
            r.pairs().len() == 0,
    {
        RecordStore { entries: Vec::new() }
    }

    /// The number of tracked collections.
    pub fn len(&self) -> (r: usize)
        ensures
            r == self.pairs().len(),
    {
        self.entries.len()
    }

    /// The name and collection at storage position `i`.
    pub fn entry_at(&self, i: usize) -> (r: (&String, &BoxCollection))
        requires
            i < self.pairs().len(),
        ensures
            r.0@ == self.pairs()[i as int].0,
            r.1@ == self.pairs()[i as int].1,
            self.wf() ==> self@.dom().contains(r.0@) && self@[r.0@] == r.1@,
    {
        proof {
            if self.wf() {
                lemma_assoc_index(self.pairs(), i as int);
            }
        }
        let e = &self.entries[i];
        (&e.name, &e.coll)
    }

    /// The position of `name` among the entries, if present.
    fn find(&self, name: &String) -> (r: Option<usize>)
        ensures
            match r {
                Some(i) => i < self.pairs().len() && self.pairs()[i as int].0 == name@,
                None => !contains_key(self.pairs(), name@),
            },
    {
        let mut i: usize = 0;
        while i < self.entries.len()
            invariant
                i <= self.pairs().len(),
                forall|j: int| 0 <= j < i ==> self.pairs()[j].0 != name@,
            decreases self.pairs().len() - i,
        {
            if self.entries[i].name == *name {
                return Some(i);
            }
            i = i + 1;
        }
        None
    }

    /// Whether a collection of that name is tracked.
    pub fn contains(&self, name: &String) -> (r: bool)
        ensures
            r == self@.dom().contains(name@),
    {
        proof {
            lemma_assoc_contains(self.pairs(), name@);
        }
        match self.find(name) {
            Some(_) => true,
            None => false,
        }
    }

    /// The collection stored under `name`, if any.
    pub fn get(&self, name: &String) -> (r: Option<&BoxCollection>)
        requires
            self.wf(),
        ensures
            match r {
                Some(c) => self@.dom().contains(name@) && c@ == self@[name@],
                None => !self@.dom().contains(name@),
            },
    {
        proof {
            lemma_assoc_contains(self.pairs(), name@);
        }
        match self.find(name) {
            Some(i) => {
                proof {
                    lemma_assoc_index(self.pairs(), i as int);
                }
                Some(&self.entries[i].coll)
            },
            None => None,
        }
    }

    /// Stores `coll` under `name`, replacing any collection already there.
    pub fn insert(&mut self, name: String, coll: BoxCollection)
        requires
            old(self).wf(),
        ensures
            final(self).wf(),
            final(self)@ == old(self)@.insert(name@, coll@),
            final(self).pairs().len() == if old(self)@.dom().contains(name@) {
                old(self).pairs().len() as int
            } else {
                (old(self).pairs().len() + 1) as int
            },
            // Storage order: a replaced entry keeps its position, a new
            // entry is appended.
            final(self).pairs().map_values(|p: (Seq<char>, CollectionView)| p.0)
                == if old(self)@.dom().contains(name@) {
                    old(self).pairs().map_values(|p: (Seq<char>, CollectionView)| p.0)
                } else {
                    old(self).pairs().map_values(|p: (Seq<char>, CollectionView)| p.0).push(
                        name@,
                    )
                },
    {
        proof {
            lemma_assoc_contains(self.pairs(), name@);
        }
        match self.find(&name) {
            Some(i) => {
                proof {
                    lemma_assoc_update(self.pairs(), i as int, coll@);
                }
                let e = &mut self.entries[i];
                *e = StoreEntry { name, coll };
                proof {
                    assert(self.pairs() =~= old(self).pairs().update(
                        i as int,
                        (old(self).pairs()[i as int].0, coll@),
                    ));
                    assert(self.pairs().map_values(
                        |p: (Seq<char>, CollectionView)| p.0,
                    ) =~= old(self).pairs().map_values(
                        |p: (Seq<char>, CollectionView)| p.0,
                    ));
                }
            },
            None => {
                proof {
                    lemma_assoc_push(self.pairs(), name@, coll@);
                }
                self.entries.push(StoreEntry { name, coll });
                proof {
                    assert(self.pairs() =~= old(self).pairs().push((name@, coll@)));
                    assert(self.pairs().map_values(
                        |p: (Seq<char>, CollectionView)| p.0,
                    ) =~= old(self).pairs().map_values(
                        |p: (Seq<char>, CollectionView)| p.0,
                    ).push(name@));
                }
            },
        }
    }

    /// Removes and returns the collection stored under `name`, if any.
    pub fn remove(&mut self, name: &String) -> (r: Option<BoxCollection>)
        requires
            old(self).wf(),
        ensures
            final(self).wf(),
            final(self)@ == old(self)@.remove(name@),
            match r {
                Some(c) => old(self)@.dom().contains(name@) && c@ == old(self)@[name@],
                None => !old(self)@.dom().contains(name@) && *final(self) == *old(self),
            },
    {
        proof {
            lemma_assoc_contains(self.pairs(), name@);
        }
        match self.find(name) {
            Some(i) => {
                proof {
                    lemma_assoc_index(self.pairs(), i as int);
                    lemma_assoc_remove(self.pairs(), i as int);
                }
                let e = self.entries.remove(i);
                proof {
                    assert(self.pairs() =~= old(self).pairs().remove(i as int));
                }
                Some(e.coll)
            },
            None => {
                proof {
                    assert(old(self)@.remove(name@) =~= old(self)@);
                }
                None
            },
        }
    }

    /// Duplicates the collection stored under `source` into a fresh,
    /// independent deep copy stored under `new_name`.  The new name must be
    /// non-empty, at most 32 bytes long, and not already in use; otherwise
    /// the store is unchanged and the reason is returned.  A name too long
    /// takes precedence over the other rejections, as the editor reports it.
    pub fn duplicate_as_new(&mut self, source: &String, new_name: &String) -> (r: Result<
        (),
        NameError,
    >)
        requires
            old(self).wf(),
            old(self)@.dom().contains(source@),
        ensures
            final(self).wf(),
            match r {
                Ok(()) => {
                    &&& 0 < new_name@.len()
                    &&& vstd::utf8::encode_utf8(new_name@).len() <= 32
                    &&& !old(self)@.dom().contains(new_name@)
                    &&& final(self)@ == old(self)@.insert(new_name@, old(self)@[source@])
                },
                Err(NameError::TooLong) => {
                    &&& vstd::utf8::encode_utf8(new_name@).len() > 32
                    &&& *final(self) == *old(self)
                },
                Err(NameError::Empty) => {
                    &&& new_name@.len() == 0
                    &&& *final(self) == *old(self)
                },
                Err(NameError::AlreadyPresent) => {
                    &&& 0 < new_name@.len()
                    &&& vstd::utf8::encode_utf8(new_name@).len() <= 32
                    &&& old(self)@.dom().contains(new_name@)
                    &&& *final(self) == *old(self)
                },
            },
    {
        let byte_len = new_name.as_str().as_bytes().len();
        if byte_len > 32 {
            return Err(NameError::TooLong);
        }
        if byte_len == 0 {
            proof {
                lemma_encoded_len_zero_iff(new_name@);
            }
            return Err(NameError::Empty);
        }
        proof {
            lemma_encoded_len_zero_iff(new_name@);
        }
        if self.contains(new_name) {
            return Err(NameError::AlreadyPresent);
        }
        let copy = match self.get(source) {
            Some(c) => c.deep_copy(),
            None => unreached(),
        };
        self.insert(new_name.clone(), copy);
        Ok(())
    }
}

} // verus!
