//! Lists of 8-bit ids kept without repetition, in insertion order.

use vstd::prelude::*;
use vstd::set_lib::*;

verus! {

/// A list without repetition that leaves out one id has at most 255 entries.
pub proof fn lemma_distinct_ids_bounded(s: Seq<u8>, absent: u8)
    requires
        s.no_duplicates(),
        !s.contains(absent),
    ensures
        s.len() <= 255,
{
    let f = |b: u8| b as int;
    assert(vstd::relations::injective(f));
    let ints = s.map_values(f);
    s.lemma_no_duplicates_injective(f);
    ints.unique_seq_to_set();
    lemma_int_range(0, 256);
    let all = set_int_range(0, 256);
    let allowed = all.remove(absent as int);
    assert forall|x: int| ints.to_set().contains(x) implies allowed.contains(x) by {
        let i = choose|i: int| 0 <= i < ints.len() && ints[i] == x;
        assert(ints[i] == s[i] as int);
        assert(s.contains(s[i]));
    }
    assert(ints.to_set().subset_of(allowed));
    lemma_len_subset(ints.to_set(), allowed);
}

/// Removing the entry at `i` from a list without repetition removes exactly
/// its value.
pub proof fn lemma_remove_distinct(s: Seq<u8>, i: int)
    requires
        s.no_duplicates(),
        0 <= i < s.len(),
    ensures
        s.remove(i).no_duplicates(),
        forall|x: u8| s.remove(i).contains(x) <==> (s.contains(x) && x != s[i]),
{
    let r = s.remove(i);
    s.remove_ensures(i);
    assert forall|x: u8| r.contains(x) <==> (s.contains(x) && x != s[i]) by {
        if r.contains(x) {
            let k = choose|k: int| 0 <= k < r.len() && r[k] == x;
            if k < i {
                assert(s[k] == x);
            } else {
                assert(s[k + 1] == x);
            }
        }
        if s.contains(x) && x != s[i] {
            let k = choose|k: int| 0 <= k < s.len() && s[k] == x;
            if k < i {
                assert(r[k] == x);
            } else {
                assert(r[k - 1] == x);
            }
        }
    }
}

/// Adding an absent id to a list without repetition keeps it so.
pub proof fn lemma_push_distinct(s: Seq<u8>, id: u8)
    requires
        s.no_duplicates(),
        !s.contains(id),
    ensures
        s.push(id).no_duplicates(),
        forall|x: u8| s.push(id).contains(x) <==> (s.contains(x) || x == id),
{
    let p = s.push(id);
    assert forall|x: u8| p.contains(x) <==> (s.contains(x) || x == id) by {
        if p.contains(x) {
            let k = choose|k: int| 0 <= k < p.len() && p[k] == x;
            if k < s.len() {
                assert(s[k] == x);
            }
        }
        if s.contains(x) {
            let k = choose|k: int| 0 <= k < s.len() && s[k] == x;
            assert(p[k] == x);
        }
        if x == id {
            assert(p[s.len() as int] == x);
        }
    }
    assert forall|i: int, j: int| 0 <= i < p.len() && 0 <= j < p.len() && i != j implies p[i]
        != p[j] by {
        if i < s.len() && j < s.len() {
        } else if i < s.len() {
            assert(s.contains(s[i]));
        } else {
            assert(s.contains(s[j]));
        }
    }
}

/// The list with `id` added at the end unless it is there already.
pub open spec fn with_id(s: Seq<u8>, id: u8) -> Seq<u8> {
    if s.contains(id) {
        s
    } else {
        s.push(id)
    }
}

/// Whether `i` is where `id` first stands in `s`.
pub open spec fn is_first_position(s: Seq<u8>, id: u8, i: int) -> bool {
    &&& 0 <= i < s.len()
    &&& s[i] == id
    &&& forall|j: int| 0 <= j < i ==> s[j] != id
}

/// Where `id` first stands in `s`.
pub open spec fn first_position(s: Seq<u8>, id: u8) -> int {
    choose|i: int| is_first_position(s, id, i)
}

/// The list without the first entry equal to `id`.
pub open spec fn without_id(s: Seq<u8>, id: u8) -> Seq<u8> {
    if s.contains(id) {
        s.remove(first_position(s, id))
    } else {
        s
    }
}

/// The place where an id first stands is the only one that meets that
/// description.
pub proof fn lemma_first_position(s: Seq<u8>, id: u8, i: int)
    requires
        is_first_position(s, id, i),
    ensures
        first_position(s, id) == i,
{
    let k = first_position(s, id);
    assert(is_first_position(s, id, k));
    if k < i {
        assert(s[k] != id);
    }
    if i < k {
        assert(s[i] != id);
    }
}

/// An id that stands in a list stands somewhere first.
pub proof fn lemma_some_first_position(s: Seq<u8>, id: u8, k: int)
    requires
        0 <= k < s.len(),
        s[k] == id,
    ensures
        is_first_position(s, id, first_position(s, id)),
    decreases k,
{
    if exists|j: int| 0 <= j < k && s[j] == id {
        let j = choose|j: int| 0 <= j < k && s[j] == id;
        lemma_some_first_position(s, id, j);
    } else {
        assert(is_first_position(s, id, k));
    }
}

/// Taking an id out of a list without repetition leaves a list without
/// repetition that holds every other id and not that one.
pub proof fn lemma_without_distinct(s: Seq<u8>, id: u8)
    requires
        s.no_duplicates(),
    ensures
        without_id(s, id).no_duplicates(),
        forall|x: u8| without_id(s, id).contains(x) <==> (s.contains(x) && x != id),
        without_id(s, id).len() <= s.len(),
{
    if s.contains(id) {
        let k = choose|k: int| 0 <= k < s.len() && s[k] == id;
        assert(is_first_position(s, id, k)) by {
            assert forall|j: int| 0 <= j < k implies s[j] != id by {
                if s[j] == id {
                    assert(s[j] == s[k]);
                }
            }
        }
        lemma_first_position(s, id, k);
        lemma_remove_distinct(s, k);
    }
}

/// Where `id` first stands in `list`, if it does.
pub(crate) fn position_of(list: &Vec<u8>, id: u8) -> (r: Option<usize>)
    ensures
        match r {
            Some(i) => i < list@.len() && list@[i as int] == id && forall|j: int|
                0 <= j < i ==> list@[j] != id,
            None => !list@.contains(id),
        },
{
    let mut i: usize = 0;
    while i < list.len()
        invariant
            i <= list@.len(),
            forall|j: int| 0 <= j < i ==> list@[j] != id,
        decreases list@.len() - i,
    {
        if list[i] == id {
            return Some(i);
        }
        i = i + 1;
    }
    None
}

pub(crate) fn contains_id(list: &Vec<u8>, id: u8) -> (b: bool)
    ensures
        b == list@.contains(id),
{
    position_of(list, id).is_some()
}

/// Adds `id` unless it is there already.
pub(crate) fn insert_id(list: &mut Vec<u8>, id: u8)
    ensures
        final(list)@ == with_id(old(list)@, id),
{
    if !contains_id(list, id) {
        list.push(id);
    }
}

/// Takes out the first entry equal to `id`, if there is one.
pub(crate) fn remove_id(list: &mut Vec<u8>, id: u8)
    ensures
        final(list)@ == without_id(old(list)@, id),
{
    match position_of(list, id) {
        Some(i) => {
            proof {
                lemma_first_position(list@, id, i as int);
            }
            list.remove(i);
        },
        None => {},
    }
}

/// A copy of `list`.
pub(crate) fn copy_ids(list: &Vec<u8>) -> (copy: Vec<u8>)
    ensures
        copy@ == list@,
{
    let mut copy: Vec<u8> = Vec::new();
    let mut i: usize = 0;
    while i < list.len()
        invariant
            i <= list@.len(),
            copy@ == list@.take(i as int),
        decreases list@.len() - i,
    {
        copy.push(list[i]);
        i = i + 1;
        assert(copy@ =~= list@.take(i as int));
    }
    assert(list@.take(i as int) =~= list@);
    copy
}

} // verus!
