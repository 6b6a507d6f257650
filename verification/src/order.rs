//! The members of a chat in the order of their identifiers.
use std::collections::BTreeSet;

use vstd::prelude::*;

verus! {

/// Whether each identifier is smaller than those behind it.
pub open spec fn ascending(ids: Seq<i32>) -> bool {
    forall|i: int, j: int| 0 <= i < j < ids.len() ==> ids[i] < ids[j]
}

/// Whether `ids` lists `members` from the smallest to the largest.
pub open spec fn lists(ids: Seq<i32>, members: Set<i32>) -> bool {
    &&& ascending(ids)
    &&& ids.to_set() == members
}

/// The members of a set from the smallest to the largest.
pub open spec fn in_order(members: Set<i32>) -> Seq<i32> {
    choose|ids: Seq<i32>| lists(ids, members)
}

/// There is only one way to list a set from the smallest to the largest member.
pub proof fn lemma_lists_unique(a: Seq<i32>, b: Seq<i32>, members: Set<i32>)
    requires
        lists(a, members),
        lists(b, members),
    ensures
        a == b,
    decreases a.len(),
{
    if a.len() == 0 {
        if b.len() > 0 {
            assert(b.to_set().contains(b[0]));
            assert(a.to_set().contains(b[0]));
        }
        assert(a =~= b);
    } else {
        assert(a.to_set().contains(a.last()));
        assert(b.contains(a.last()));
        assert(b.to_set().contains(b.last()));
        assert(a.contains(b.last()));
        let top = a.last();
        assert(top == b.last()) by {
            let i = choose|i: int| 0 <= i < b.len() && b[i] == top;
            let j = choose|j: int| 0 <= j < a.len() && a[j] == b.last();
            assert(b[i] <= b.last());
            assert(a[j] <= top);
        }
        lemma_lists_drop_last(a, members);
        lemma_lists_drop_last(b, members);
        lemma_lists_unique(a.drop_last(), b.drop_last(), members.remove(top));
        assert(a =~= a.drop_last().push(top));
        assert(b =~= b.drop_last().push(top));
    }
}

/// Every finite set can be listed from the smallest to the largest member, and each member stands
/// in the list once.
pub proof fn theorem_in_order(members: Set<i32>)
    requires
        members.finite(),
    ensures
        lists(in_order(members), members),
        in_order(members).no_duplicates(),
        in_order(members).len() == members.len(),
{
    let ids = lemma_list_exists(members);
    assert(lists(ids, members));
    in_order(members).unique_seq_to_set();
}

/// The members of a set in order are the only sequence that holds them all and nothing else, each
/// behind the smaller ones.
pub proof fn theorem_order(members: Set<i32>, ids: Seq<i32>)
    requires
        members.finite(),
    ensures
        ids == in_order(members) <==> {
            &&& forall|i: int, j: int| 0 <= i < j < ids.len() ==> ids[i] < ids[j]
            &&& forall|id: i32| #[trigger] members.contains(id) <==> ids.contains(id)
        },
{
    theorem_in_order(members);
    if forall|id: i32| #[trigger] members.contains(id) <==> ids.contains(id) {
        assert(ids.to_set() =~= members);
    }
    if ascending(ids) && ids.to_set() == members {
        lemma_lists_unique(ids, in_order(members), members);
    }
    if ids == in_order(members) {
        assert forall|id: i32| #[trigger] members.contains(id) <==> ids.contains(id) by {
            assert(ids.to_set().contains(id) <==> ids.contains(id));
        }
    }
}

/// A finite set can be listed.
proof fn lemma_list_exists(members: Set<i32>) -> (ids: Seq<i32>)
    requires
        members.finite(),
    ensures
        lists(ids, members),
    decreases members.len(),
{
    if members.len() == 0 {
        let ids = Seq::<i32>::empty();
        assert(ids.to_set() =~= members);
        ids
    } else {
        let top = lemma_largest(members);
        let front = lemma_list_exists(members.remove(top));
        let ids = front.push(top);
        assert forall|i: int| 0 <= i < front.len() implies front[i] < top by {
            assert(front.to_set().contains(front[i]));
        }
        front.lemma_push_to_set_commute(top);
        assert(ids.to_set() =~= members);
        ids
    }
}

/// A finite set that is not empty has a largest member.
proof fn lemma_largest(members: Set<i32>) -> (top: i32)
    requires
        members.finite(),
        members.len() > 0,
    ensures
        members.contains(top),
        forall|id: i32| members.contains(id) ==> id <= top,
    decreases members.len(),
{
    let some = members.choose();
    let rest = members.remove(some);
    if rest.len() == 0 {
        assert forall|id: i32| members.contains(id) implies id <= some by {
            if id != some {
                assert(rest.contains(id));
            }
        }
        some
    } else {
        let top = lemma_largest(rest);
        assert forall|id: i32| members.contains(id) && id != some implies id <= top by {
            assert(rest.contains(id));
        }
        if some > top {
            some
        } else {
            top
        }
    }
}

/// Without its last entry, a list lists the members without the largest.
proof fn lemma_lists_drop_last(ids: Seq<i32>, members: Set<i32>)
    requires
        lists(ids, members),
        ids.len() > 0,
    ensures
        lists(ids.drop_last(), members.remove(ids.last())),
{
    let rest = ids.drop_last();
    let fewer = members.remove(ids.last());
    assert forall|id: i32| rest.to_set().contains(id) <==> fewer.contains(id) by {
        if rest.to_set().contains(id) {
            let i = choose|i: int| 0 <= i < rest.len() && rest[i] == id;
            assert(ids[i] == id);
            assert(ids.to_set().contains(id));
        }
        if fewer.contains(id) {
            assert(ids.to_set().contains(id));
            let i = choose|i: int| 0 <= i < ids.len() && ids[i] == id;
            assert(rest[i] == id);
        }
    }
    assert(rest.to_set() =~= fewer);
}

/// References to identifiers are ordered as the identifiers are.
proof fn lemma_references_ordered()
    ensures
        vstd::laws_cmp::obeys_cmp::<&i32>(),
{
    reveal(vstd::laws_eq::obeys_eq_spec_properties);
    reveal(vstd::laws_cmp::obeys_partial_cmp_spec_properties);
    reveal(vstd::laws_cmp::obeys_cmp_partial_ord);
    reveal(vstd::laws_cmp::obeys_cmp_ord);
}

/// The members of a set from the smallest to the largest.
pub fn ids_in_order(members: &BTreeSet<i32>) -> (ids: Vec<i32>)
    ensures
        ids@ == in_order(members@),
        lists(ids@, members@),
{
    broadcast use vstd::laws_cmp::group_laws_cmp;

    let mut ids: Vec<i32> = Vec::new();
    for id in walk: members.iter()
        invariant
            ids@.len() == walk.index(),
            forall|i: int| 0 <= i < ids@.len() ==> ids@[i] == *walk.seq()[i],
    {
        ids.push(*id);
    }
    proof {
        lemma_references_ordered();
        let walked = vstd::std_specs::iter::IteratorSpec::remaining(&members.iter());
        assert(ids@ =~= walked.unref());
        assert(vstd::std_specs::btree::increasing_seq(walked));
        assert forall|i: int, j: int| 0 <= i < j < ids@.len() implies ids@[i] < ids@[j] by {
            assert(vstd::std_specs::cmp::OrdSpec::cmp_spec(&walked[i], &walked[j]) is Less);
        }
        lemma_lists_unique(ids@, in_order(members@), members@);
    }
    ids
}

} // verus!
