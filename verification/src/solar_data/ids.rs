//! Sorted lists of ids without repeats: what both id registries are made of.

use vstd::prelude::*;

verus! {

/// No id twice, and the ids in ascending order.
pub open spec fn strictly_ascending(s: Seq<u16>) -> bool {
    forall|i: int, j: int| 0 <= i < j < s.len() ==> s[i] < s[j]
}

/// Where `id` stands in the list, or where it would have to be put.
pub fn find_id(ids: &Vec<u16>, id: u16) -> (r: Result<usize, usize>)
    requires
        strictly_ascending(ids@),
    ensures
        match r {
            Ok(i) => i < ids.len() && ids[i as int] == id,
            Err(i) => {
                &&& i <= ids.len()
                &&& forall|j: int| 0 <= j < i ==> ids[j] < id
                &&& forall|j: int| i <= j < ids.len() ==> ids[j] > id
            },
        },
        r is Ok <==> ids@.contains(id),
{
    let mut lo: usize = 0;
    let mut hi: usize = ids.len();
    while lo < hi
        invariant
            strictly_ascending(ids@),
            lo <= hi <= ids.len(),
            forall|j: int| 0 <= j < lo ==> ids[j] < id,
            forall|j: int| hi <= j < ids.len() ==> ids[j] > id,
        decreases hi - lo,
    {
        let mid = lo + (hi - lo) / 2;
        let found = ids[mid];
        if found == id {
            return Ok(mid);
        } else if found < id {
            lo = mid + 1;
        } else {
            hi = mid;
        }
    }
    Err(lo)
}

/// Puts `id` at its place in the list unless the list has it. Says whether
/// the id was new.
pub fn insert_id(ids: &mut Vec<u16>, id: u16) -> (added: bool)
    requires
        strictly_ascending(old(ids)@),
    ensures
        strictly_ascending(final(ids)@),
        added == !old(ids)@.contains(id),
        final(ids)@.to_set() == old(ids)@.to_set().insert(id),
        !added ==> final(ids)@ == old(ids)@,
        added ==> final(ids)@.len() == old(ids)@.len() + 1,
{
    match find_id(ids, id) {
        Ok(i) => {
            proof {
                assert(ids@.to_set().insert(id) =~= ids@.to_set());
            }
            false
        },
        Err(pos) => {
            let ghost before = ids@;
            ids.insert(pos, id);
            proof {
                let after = ids@;
                assert(after == before.insert(pos as int, id));
                assert forall|a: u16| after.to_set().contains(a) <==> before.to_set().insert(
                    id,
                ).contains(a) by {
                    if after.contains(a) {
                        let i = choose|i: int| 0 <= i < after.len() && after[i] == a;
                        if i < pos {
                            assert(before[i] == a);
                        } else if i > pos {
                            assert(before[i - 1] == a);
                        }
                    }
                    if before.contains(a) {
                        let i = choose|i: int| 0 <= i < before.len() && before[i] == a;
                        if i < pos {
                            assert(after[i] == a);
                        } else {
                            assert(after[i + 1] == a);
                        }
                    }
                    if a == id {
                        assert(after[pos as int] == a);
                    }
                }
                assert(after.to_set() =~= before.to_set().insert(id));
            }
            true
        },
    }
}

/// Puts every id of `other` into the list.
pub fn insert_all(ids: &mut Vec<u16>, other: &Vec<u16>)
    requires
        strictly_ascending(old(ids)@),
    ensures
        strictly_ascending(final(ids)@),
        final(ids)@.to_set() == old(ids)@.to_set().union(other@.to_set()),
{
    let mut i: usize = 0;
    proof {
        assert(other@.take(0).to_set() =~= Set::<u16>::empty());
        assert(ids@.to_set().union(Set::<u16>::empty()) =~= ids@.to_set());
    }
    while i < other.len()
        invariant
            i <= other.len(),
            strictly_ascending(ids@),
            ids@.to_set() == old(ids)@.to_set().union(other@.take(i as int).to_set()),
        decreases other.len() - i,
    {
        let ghost before = ids@.to_set();
        insert_id(ids, other[i]);
        proof {
            let head = other@.take(i as int);
            let next = other@.take(i as int + 1);
            assert forall|a: u16| next.to_set().contains(a) <==> head.to_set().insert(
                other[i as int],
            ).contains(a) by {
                if next.contains(a) {
                    let k = choose|k: int| 0 <= k < next.len() && next[k] == a;
                    if k < i {
                        assert(head[k] == a);
                    }
                }
                if head.contains(a) {
                    let k = choose|k: int| 0 <= k < head.len() && head[k] == a;
                    assert(next[k] == a);
                }
                if a == other[i as int] {
                    assert(next[i as int] == a);
                }
            }
            assert(next.to_set() =~= head.to_set().insert(other[i as int]));
            assert(ids@.to_set() =~= old(ids)@.to_set().union(next.to_set()));
        }
        i = i + 1;
    }
    proof {
        assert(other@.take(other.len() as int) =~= other@);
    }
}

/// Whether the ids are in ascending order, each once.
pub fn is_strictly_ascending(ids: &Vec<u16>) -> (ok: bool)
    ensures
        ok == strictly_ascending(ids@),
{
    if ids.len() < 2 {
        return true;
    }
    let mut i: usize = 1;
    while i < ids.len()
        invariant
            1 <= i <= ids.len(),
            strictly_ascending(ids@.take(i as int)),
        decreases ids.len() - i,
    {
        if ids[i - 1] >= ids[i] {
            return false;
        }
        proof {
            let head = ids@.take(i as int);
            let next = ids@.take(i as int + 1);
            assert forall|a: int, b: int| 0 <= a < b < next.len() implies next[a] < next[b] by {
                if b < i {
                    assert(head[a] < head[b]);
                } else if a < i - 1 {
                    assert(head[a] < head[i as int - 1]);
                }
            }
        }
        i = i + 1;
    }
    proof {
        assert(ids@.take(ids.len() as int) =~= ids@);
    }
    true
}

/// A copy of the list.
pub fn copy_ids(ids: &Vec<u16>) -> (copy: Vec<u16>)
    ensures
        copy@ == ids@,
{
    let mut copy: Vec<u16> = Vec::new();
    let mut i: usize = 0;
    while i < ids.len()
        invariant
            i <= ids.len(),
            copy@ == ids@.take(i as int),
        decreases ids.len() - i,
    {
        copy.push(ids[i]);
        proof {
            assert(ids@.take(i as int + 1) =~= ids@.take(i as int).push(ids[i as int]));
        }
        i = i + 1;
    }
    proof {
        assert(ids@.take(ids.len() as int) =~= ids@);
    }
    copy
}

/// Whether two lists hold the same ids in the same order.
pub fn same_ids(a: &Vec<u16>, b: &Vec<u16>) -> (same: bool)
    ensures
        same == (a@ == b@),
{
    if a.len() != b.len() {
        return false;
    }
    let mut i: usize = 0;
    while i < a.len()
        invariant
            i <= a.len(),
            a.len() == b.len(),
            a@.take(i as int) == b@.take(i as int),
        decreases a.len() - i,
    {
        if a[i] != b[i] {
            return false;
        }
        proof {
            assert(a@.take(i as int + 1) =~= a@.take(i as int).push(a[i as int]));
            assert(b@.take(i as int + 1) =~= b@.take(i as int).push(b[i as int]));
        }
        i = i + 1;
    }
    proof {
        assert(a@.take(a.len() as int) =~= a@);
        assert(b@.take(b.len() as int) =~= b@);
    }
    true
}

} // verus!
