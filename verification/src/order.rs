use vstd::prelude::*;

use crate::staging::{MemberDescV, MemberDescriptor};

verus! {

/// A member's placement: its name and the legacy ordering key that decides
/// its canonical position in a repacked archive.
pub struct Placed {
    pub name: Seq<char>,
    pub key: u32,
}

/// The placement a sidecar line asks for.
pub open spec fn placed_of_desc(d: MemberDescV) -> Placed {
    Placed { name: d.name, key: d.ordering_key }
}

/// The placements of a descriptor list, in order.
pub open spec fn placed_seq(s: Seq<MemberDescriptor>) -> Seq<Placed> {
    s.map_values(|d: MemberDescriptor| placed_of_desc(d@))
}

/// Ascending by ordering key.
pub open spec fn sorted_by_key(s: Seq<Placed>) -> bool {
    forall|i: int, j: int| 0 <= i < j < s.len() ==> s[i].key <= s[j].key
}

/// The members of `s` whose key is `k`, keeping their relative order.
pub open spec fn filter_key(s: Seq<Placed>, k: u32) -> Seq<Placed>
    decreases s.len(),
{
    if s.len() == 0 {
        Seq::empty()
    } else if s.last().key == k {
        filter_key(s.drop_last(), k).push(s.last())
    } else {
        filter_key(s.drop_last(), k)
    }
}

/// Where a member with key `k` lands when inserted into `s`: after every
/// member whose key is at most `k`.
pub open spec fn insert_pos(s: Seq<Placed>, k: u32) -> int
    decreases s.len(),
{
    if s.len() == 0 {
        0
    } else if s.last().key <= k {
        s.len() as int
    } else {
        insert_pos(s.drop_last(), k)
    }
}

/// One stable insertion into an already placed sequence.
pub open spec fn place_one(s: Seq<Placed>, p: Placed) -> Seq<Placed> {
    s.insert(insert_pos(s, p.key), p)
}

/// The canonical placement of a member list: ascending by ordering key, and
/// members of equal key keeping their given relative order.
pub open spec fn stable_sort_spec(s: Seq<Placed>) -> Seq<Placed>
    decreases s.len(),
{
    if s.len() == 0 {
        Seq::empty()
    } else {
        place_one(stable_sort_spec(s.drop_last()), s.last())
    }
}

/// The insertion position is always within bounds.
pub proof fn lemma_insert_pos_bounds(s: Seq<Placed>, k: u32)
    ensures
        0 <= insert_pos(s, k) <= s.len(),
    decreases s.len(),
{
    if s.len() > 0 && s.last().key > k {
        lemma_insert_pos_bounds(s.drop_last(), k);
    }
}

/// The insertion position is within bounds, everything before it has a key
/// at most `k`, and — in a sorted sequence — everything from it on has a
/// key above `k`.
pub proof fn lemma_insert_pos_split(s: Seq<Placed>, k: u32)
    requires
        sorted_by_key(s),
    ensures
        0 <= insert_pos(s, k) <= s.len(),
        forall|j: int| 0 <= j < insert_pos(s, k) ==> s[j].key <= k,
        forall|j: int| insert_pos(s, k) <= j < s.len() ==> s[j].key > k,
    decreases s.len(),
{
    if s.len() == 0 {
    } else if s.last().key <= k {
        assert forall|j: int| 0 <= j < insert_pos(s, k) implies s[j].key <= k by {
            if j < s.len() - 1 {
                assert(s[j].key <= s[s.len() - 1].key);
            }
        }
    } else {
        assert(sorted_by_key(s.drop_last())) by {
            assert(forall|i: int|
                0 <= i < s.len() - 1 ==> s.drop_last()[i] == s[i]);
        }
        lemma_insert_pos_split(s.drop_last(), k);
        assert forall|j: int| 0 <= j < insert_pos(s, k) implies s[j].key <= k by {
            assert(s.drop_last()[j].key <= k);
        }
        assert forall|j: int| insert_pos(s, k) <= j < s.len() implies s[j].key > k by {
            if j < s.len() - 1 {
                assert(s.drop_last()[j].key > k);
            }
        }
    }
}

/// A stable insertion into a sorted sequence is sorted.
pub proof fn lemma_place_one_sorted(s: Seq<Placed>, p: Placed)
    requires
        sorted_by_key(s),
    ensures
        sorted_by_key(place_one(s, p)),
{
    let pos = insert_pos(s, p.key);
    lemma_insert_pos_split(s, p.key);
    let t = s.insert(pos, p);
    s.insert_ensures(pos, p);
    assert forall|i: int, j: int| 0 <= i < j < t.len() implies t[i].key <= t[j].key by {
        if i < pos {
            assert(t[i] == s[i]);
        } else if i == pos {
            assert(t[i] == p);
        } else {
            assert(t[i] == s[i - 1]);
        }
        if j < pos {
            assert(t[j] == s[j]);
        } else if j == pos {
            assert(t[j] == p);
        } else {
            assert(t[j] == s[j - 1]);
        }
    }
}

/// Concatenation splits a key filter.
proof fn lemma_filter_key_add(a: Seq<Placed>, b: Seq<Placed>, k: u32)
    ensures
        filter_key(a + b, k) == filter_key(a, k) + filter_key(b, k),
    decreases b.len(),
{
    if b.len() == 0 {
        assert(a + b =~= a);
        assert(filter_key(b, k) =~= Seq::<Placed>::empty());
        assert(filter_key(a, k) + filter_key(b, k) =~= filter_key(a, k));
    } else {
        lemma_filter_key_add(a, b.drop_last(), k);
        assert((a + b).drop_last() =~= a + b.drop_last());
        assert((a + b).last() == b.last());
        if b.last().key == k {
            assert(filter_key(a + b, k) =~= filter_key(a, k) + filter_key(b, k));
        } else {
            assert(filter_key(a + b, k) =~= filter_key(a, k) + filter_key(b, k));
        }
    }
}

/// A sequence with no member of key `k` filters to nothing.
proof fn lemma_filter_key_none(s: Seq<Placed>, k: u32)
    requires
        forall|i: int| 0 <= i < s.len() ==> s[i].key != k,
    ensures
        filter_key(s, k) == Seq::<Placed>::empty(),
    decreases s.len(),
{
    if s.len() > 0 {
        assert(forall|i: int|
            0 <= i < s.len() - 1 ==> s.drop_last()[i].key != k);
        lemma_filter_key_none(s.drop_last(), k);
    }
}

/// A stable insertion appends the member to its own key's filter and leaves
/// every other key's filter unchanged.
pub proof fn lemma_place_one_filter(s: Seq<Placed>, p: Placed, k: u32)
    requires
        sorted_by_key(s),
    ensures
        k == p.key ==> filter_key(place_one(s, p), k) == filter_key(s, k).push(p),
        k != p.key ==> filter_key(place_one(s, p), k) == filter_key(s, k),
{
    let pos = insert_pos(s, p.key);
    lemma_insert_pos_split(s, p.key);
    let a = s.subrange(0, pos);
    let b = s.subrange(pos, s.len() as int);
    assert(s =~= a + b);
    assert(place_one(s, p) =~= (a.push(p)) + b);
    assert(a.push(p) =~= a + seq![p]);
    lemma_filter_key_add(a, b, k);
    lemma_filter_key_add(a + seq![p], b, k);
    lemma_filter_key_add(a, seq![p], k);
    assert(seq![p].drop_last() =~= Seq::<Placed>::empty());
    assert(seq![p].last() == p);
    assert(filter_key(Seq::<Placed>::empty(), k) =~= Seq::<Placed>::empty());
    if k == p.key {
        assert(filter_key(seq![p], k) =~= Seq::<Placed>::empty().push(p));
        assert(forall|i: int| 0 <= i < b.len() ==> b[i].key != k);
        lemma_filter_key_none(b, k);
        assert(filter_key(place_one(s, p), k) =~= filter_key(s, k).push(p));
    } else {
        assert(filter_key(seq![p], k) =~= Seq::<Placed>::empty());
        assert(filter_key(place_one(s, p), k) =~= filter_key(s, k));
    }
}

/// The canonical placement is sorted by ordering key.
pub proof fn lemma_stable_sort_sorted(s: Seq<Placed>)
    ensures
        sorted_by_key(stable_sort_spec(s)),
    decreases s.len(),
{
    if s.len() > 0 {
        lemma_stable_sort_sorted(s.drop_last());
        lemma_place_one_sorted(stable_sort_spec(s.drop_last()), s.last());
    }
}

/// The canonical placement keeps, for every key, exactly the members of
/// that key in their original relative order: the sort is stable, and a
/// permutation.
pub proof fn lemma_stable_sort_stable(s: Seq<Placed>, k: u32)
    ensures
        filter_key(stable_sort_spec(s), k) == filter_key(s, k),
    decreases s.len(),
{
    if s.len() > 0 {
        lemma_stable_sort_stable(s.drop_last(), k);
        lemma_stable_sort_sorted(s.drop_last());
        lemma_place_one_filter(stable_sort_spec(s.drop_last()), s.last(), k);
        if s.last().key == k {
            assert(filter_key(s, k) == filter_key(s.drop_last(), k).push(s.last()));
        }
    }
}

/// A member sits in a key filter exactly when it sits in the sequence and
/// carries that key.
pub proof fn lemma_filter_key_contains(s: Seq<Placed>, p: Placed)
    ensures
        filter_key(s, p.key).contains(p) <==> s.contains(p),
    decreases s.len(),
{
    if s.len() > 0 {
        lemma_filter_key_contains(s.drop_last(), p);
        if s.contains(p) {
            let i = choose|i: int| 0 <= i < s.len() && s[i] == p;
            if i < s.len() - 1 {
                assert(s.drop_last()[i] == p);
                assert(s.drop_last().contains(p));
                let f = filter_key(s.drop_last(), p.key);
                let j = choose|j: int| 0 <= j < f.len() && f[j] == p;
                if s.last().key == p.key {
                    assert(filter_key(s, p.key)[j] == p);
                } else {
                    assert(filter_key(s, p.key)[j] == p);
                }
            } else {
                assert(s.last() == p);
                let f = filter_key(s, p.key);
                assert(f.last() == p);
            }
        }
        if filter_key(s, p.key).contains(p) {
            if s.last().key == p.key {
                let f = filter_key(s.drop_last(), p.key).push(s.last());
                let j = choose|j: int| 0 <= j < f.len() && f[j] == p;
                if j < f.len() - 1 {
                    assert(filter_key(s.drop_last(), p.key)[j] == p);
                    assert(s.drop_last().contains(p));
                    let i = choose|i: int|
                        0 <= i < s.drop_last().len() && s.drop_last()[i] == p;
                    assert(s[i] == p);
                } else {
                    assert(s.last() == p);
                    assert(s[s.len() - 1] == p);
                }
            } else {
                assert(s.drop_last().contains(p));
                let i = choose|i: int|
                    0 <= i < s.drop_last().len() && s.drop_last()[i] == p;
                assert(s[i] == p);
            }
        }
    }
}

/// The canonical placement has exactly as many members as its input.
pub proof fn lemma_stable_sort_len(s: Seq<Placed>)
    ensures
        stable_sort_spec(s).len() == s.len(),
    decreases s.len(),
{
    if s.len() > 0 {
        lemma_stable_sort_len(s.drop_last());
        lemma_insert_pos_bounds(stable_sort_spec(s.drop_last()), s.last().key);
    }
}

/// The canonical placement holds exactly the members of the input.
pub proof fn lemma_stable_sort_contains(s: Seq<Placed>, p: Placed)
    ensures
        stable_sort_spec(s).contains(p) <==> s.contains(p),
{
    lemma_stable_sort_stable(s, p.key);
    lemma_filter_key_contains(s, p);
    lemma_filter_key_contains(stable_sort_spec(s), p);
}

/// Places the descriptors in their canonical order: ascending by ordering
/// key, descriptors of equal key keeping their given relative order.
pub fn stable_sort_by_key(input: Vec<MemberDescriptor>) -> (r: Vec<MemberDescriptor>)
    ensures
        placed_seq(r@) == stable_sort_spec(placed_seq(input@)),
        sorted_by_key(placed_seq(r@)),
{
    let ghost inseq = placed_seq(input@);
    let mut rest = input;
    let mut out: Vec<MemberDescriptor> = Vec::new();
    while rest.len() > 0
        invariant
            rest@.len() <= inseq.len(),
            forall|i: int|
                0 <= i < rest@.len() ==> placed_of_desc(rest@[i]@) == inseq[inseq.len()
                    - rest@.len() + i],
            placed_seq(out@) == stable_sort_spec(inseq.take(inseq.len() - rest@.len())),
            sorted_by_key(placed_seq(out@)),
        decreases rest@.len(),
    {
        let ghost done = inseq.len() - rest@.len();
        let ghost out0 = placed_seq(out@);
        let d = rest.remove(0);
        let ghost dp = placed_of_desc(d@);
        proof {
            assert(dp == inseq[done]);
        }
        let mut p: usize = out.len();
        while p > 0 && out[p - 1].ordering_key > d.ordering_key
            invariant
                p <= out@.len(),
                placed_seq(out@) == out0,
                dp.key == d.ordering_key,
                forall|j: int| p <= j < out0.len() ==> out0[j].key > dp.key,
            decreases p,
        {
            proof {
                assert(out0[p - 1] == placed_of_desc(out@[p - 1]@));
            }
            p = p - 1;
        }
        proof {
            lemma_insert_pos_split(out0, dp.key);
            let pos = insert_pos(out0, dp.key);
            assert(p as int == pos) by {
                if (p as int) < pos {
                    assert(out0[p as int].key > dp.key);
                    assert(out0[p as int].key <= dp.key);
                } else if (p as int) > pos {
                    assert(out0[p as int - 1].key <= dp.key);
                    assert(out0[p as int - 1].key > dp.key);
                }
            }
        }
        let ghost prev = out@;
        out.insert(p, d);
        proof {
            out0.insert_ensures(p as int, dp);
            assert(placed_seq(out@) =~= out0.insert(p as int, dp)) by {
                assert forall|i: int| 0 <= i < out@.len() implies placed_seq(out@)[i]
                    == out0.insert(p as int, dp)[i] by {
                    if i < p {
                        assert(out@[i] == prev[i]);
                    } else if i == p {
                        assert(out@[i] == d);
                    } else {
                        assert(out@[i] == prev[i - 1]);
                    }
                }
            }
            assert(placed_seq(out@) == place_one(out0, dp));
            assert(inseq.take(done + 1).drop_last() =~= inseq.take(done));
            assert(inseq.take(done + 1).last() == dp);
            assert(placed_seq(out@) == stable_sort_spec(inseq.take(done + 1)));
            lemma_place_one_sorted(out0, dp);
        }
    }
    proof {
        assert(inseq.take(inseq.len() as int) =~= inseq);
        lemma_stable_sort_sorted(inseq);
    }
    out
}

} // verus!
