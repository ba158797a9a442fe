use crate::addr::Addr;
use crate::request::ledger_after_record;
use vstd::prelude::*;

verus! {

/// The redundancy ledger records the item named `k` under the address `a`.
pub open spec fn recorded_at(m: Map<Addr, Vec<String>>, k: Seq<char>, a: Addr) -> bool {
    m.contains_key(a) && exists|i: int| 0 <= i < m[a]@.len() && (#[trigger] m[a]@[i])@ == k
}

/// Every item name the ledger records appears under at most one address:
/// the single-redundant-copy invariant of the ledger.
pub open spec fn single_copy(m: Map<Addr, Vec<String>>) -> bool {
    forall|k: Seq<char>, a1: Addr, a2: Addr|
        #[trigger] recorded_at(m, k, a1) && #[trigger] recorded_at(m, k, a2) ==> a1 == a2
}

/// Clearing a lost peer's ledger entry, as redistribution does, keeps
/// every remaining item at a single recorded address and leaves nothing
/// recorded at the lost one.
pub proof fn lemma_clearing_preserves_single_copy(m: Map<Addr, Vec<String>>, lost: Addr)
    requires
        single_copy(m),
    ensures
        single_copy(m.remove(lost)),
        forall|k: Seq<char>| !recorded_at(m.remove(lost), k, lost),
{
    assert forall|k: Seq<char>, a1: Addr, a2: Addr|
        #[trigger] recorded_at(m.remove(lost), k, a1) && #[trigger] recorded_at(
        m.remove(lost),
        k,
        a2,
    ) implies a1 == a2 by {
        assert(recorded_at(m, k, a1));
        assert(recorded_at(m, k, a2));
    }
}

/// Recording an item, as every push does, keeps every item at a single
/// recorded address: the record moves to the new target, since any older
/// record of the item is purged by the same step.
pub proof fn lemma_record_preserves_single_copy(
    before: Map<Addr, Vec<String>>,
    after: Map<Addr, Vec<String>>,
    t: Addr,
    key: String,
)
    requires
        single_copy(before),
        ledger_after_record(before, after, t, key),
    ensures
        single_copy(after),
        recorded_at(after, key@, t),
        forall|a: Addr| a != t ==> !recorded_at(after, key@, a),
{
    assert(after[t]@.last()@ == key@);
    assert(recorded_at(after, key@, t));
    assert forall|k: Seq<char>, a: Addr| #[trigger] recorded_at(after, k, a) implies (if k == key@ {
        a == t
    } else {
        recorded_at(before, k, a)
    }) by {
        let i = choose|i: int| 0 <= i < after[a]@.len() && (#[trigger] after[a]@[i])@ == k;
        if a == t {
            if before.contains_key(t) {
                let purged = crate::request::purge_names(before[t]@, key@);
                crate::request::lemma_purge_names_elements(before[t]@, key@);
                if i < purged.len() {
                    assert(after[t]@[i] == purged[i]);
                    assert(k != key@);
                    let j = choose|j: int| 0 <= j < before[t]@.len() && before[t]@[j] == purged[i];
                    assert(recorded_at(before, k, t));
                } else {
                    assert(after[t]@[i] == key);
                }
            } else {
                assert(after[t]@ =~= Seq::<String>::empty().push(key));
                assert(after[t]@[i] == key);
            }
        } else {
            assert(before.contains_key(a));
            assert(after[a]@ == crate::request::purge_names(before[a]@, key@));
            crate::request::lemma_purge_names_elements(before[a]@, key@);
            assert(k != key@);
            let j = choose|j: int| 0 <= j < before[a]@.len() && before[a]@[j] == after[a]@[i];
            assert(recorded_at(before, k, a));
        }
    }
    assert forall|k: Seq<char>, a1: Addr, a2: Addr|
        #[trigger] recorded_at(after, k, a1) && #[trigger] recorded_at(after, k, a2) implies a1
        == a2 by {}
}

/// Merging a table twice changes nothing beyond merging it once: the
/// membership merge (insert-or-overwrite of every received entry, stated
/// as `union_prefer_right` in the merge functions' contracts) is
/// idempotent in the received table.
pub proof fn lemma_merge_idempotent(s: Map<Seq<char>, Addr>, t: Map<Seq<char>, Addr>)
    ensures
        s.union_prefer_right(t).union_prefer_right(t) == s.union_prefer_right(t),
{
    assert(s.union_prefer_right(t).union_prefer_right(t) =~= s.union_prefer_right(t));
}

/// Two received tables with disjoint keys may arrive in either order: the
/// final membership mapping is the same.
pub proof fn lemma_merge_commutative_disjoint(
    s: Map<Seq<char>, Addr>,
    t1: Map<Seq<char>, Addr>,
    t2: Map<Seq<char>, Addr>,
)
    requires
        t1.dom().disjoint(t2.dom()),
    ensures
        s.union_prefer_right(t1).union_prefer_right(t2) == s.union_prefer_right(
            t2,
        ).union_prefer_right(t1),
{
    assert(s.union_prefer_right(t1).union_prefer_right(t2) =~= s.union_prefer_right(
        t2,
    ).union_prefer_right(t1));
}

} // verus!
