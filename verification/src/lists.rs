//! Lists in which nothing occurs twice.

use vstd::prelude::*;

verus! {

/// A list with one more item holds that item beside its own.
pub(crate) proof fn lemma_push_contains<T>(s: Seq<T>, item: T)
    ensures
        forall|x: T| #[trigger] s.push(item).contains(x) <==> s.contains(x) || x == item,
{
    assert forall|x: T| #[trigger] s.push(item).contains(x) <==> s.contains(x) || x == item by {
        if s.contains(x) {
            let k = choose|k: int| 0 <= k < s.len() && s[k] == x;
            assert(s.push(item)[k] == x);
        }
        assert(s.push(item)[s.len() as int] == item);
    }
}

/// Swapping the one occurrence of `id` out of a list takes it and nothing else.
pub(crate) proof fn lemma_swap_removed<T>(before: Seq<T>, after: Seq<T>, id: T, i: int)
    requires
        before.no_duplicates(),
        0 <= i <= before.len(),
        forall|j: int| 0 <= j < i ==> before[j] != id,
        i < before.len() ==> before[i] == id && after == before.update(
            i,
            before.last(),
        ).drop_last(),
        i == before.len() ==> after == before,
    ensures
        after.no_duplicates(),
        forall|x: T| #[trigger] after.contains(x) <==> before.contains(x) && x != id,
{
    if i < before.len() {
        assert forall|x: T| #[trigger] after.contains(x) <==> before.contains(x) && x != id by {
            if before.contains(x) && x != id {
                let k = choose|k: int| 0 <= k < before.len() && before[k] == x;
                let m = if k == before.len() - 1 { i } else { k };
                assert(after[m] == x);
            }
            if after.contains(x) {
                let k = choose|k: int| 0 <= k < after.len() && after[k] == x;
                let m = if k == i { before.len() - 1 } else { k };
                assert(before[m] == x);
            }
        }
    }
}

} // verus!
